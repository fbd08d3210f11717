use nixlayer::category::{load_all, Category, GithubSource};
use nixlayer::error::NixlayerError;
use nixlayer::paths::{Paths, StoredFile};
use nixlayer::plan::{Outcome, Plan, Step};
use nixlayer::resolver::{Backend, PackageInfo};
use nixlayer::show::{categories, diff, github_list, info, list, list_one, search, where_pkg};
use nixlayer::state::{self, State};
use nixlayer::suggest::{
    accept, pick, proceed, resolve_or_suggest, suggest, Action, Event, Stage, Suggestion,
};
use nixlayer::ui::{
    bold, choice_prompt, confirm, confirm_prompt, dim, error, heading, ok, prompt_choice, warn,
};

fn paths() -> Paths {
    Paths::at("/x".to_string(), false, false)
}

fn lines(plan: &Plan) -> Vec<String> {
    plan.steps
        .iter()
        .map(|s| match s {
            Step::Print(l) => l.text.clone(),
            Step::Write(_, _) => panic!("nothing is to be written"),
        })
        .collect()
}

fn package(attribute: &str, pname: Option<&str>) -> PackageInfo {
    PackageInfo {
        attribute: attribute.to_string(),
        pname: pname.map(String::from),
        version: None,
        description: None,
        homepage: None,
        license: vec![],
        free: true,
        broken: false,
        source: Backend::Flakes,
    }
}

fn files() -> Vec<StoredFile> {
    let mut a = Category::new_empty("app", "/x/modules/nixlayer/app.nix".to_string());
    a.add("vlc");
    a.add_github(GithubSource {
        name: "hypr".to_string(),
        owner: "o".to_string(),
        repo: "r".to_string(),
        rev: "0123456789abcdef".to_string(),
        git_ref: None,
        attr: "default".to_string(),
    });
    let b = Category::new_empty("b", "/x/modules/nixlayer/b.nix".to_string());
    vec![
        StoredFile { name: "app.nix".to_string(), text: Ok(a.render().unwrap()) },
        StoredFile { name: "b.nix".to_string(), text: Ok(b.render().unwrap()) },
    ]
}

fn with_broken() -> Vec<StoredFile> {
    let mut f = files();
    f.push(StoredFile { name: "c.nix".to_string(), text: Err("denied".to_string()) });
    f
}

#[test]
fn categories_are_listed() {
    let plan = list(&load_all(&paths(), &files()), false);
    assert_eq!(
        lines(&plan),
        vec!["app (2)", "  vlc", "  [github] hypr -> o/r@0123456789 (default)", "", "b (0)", "  (empty)", ""]
    );
    assert!(matches!(plan.outcome, Outcome::Done));
    let plan = list(&load_all(&paths(), &with_broken()), false);
    assert_eq!(lines(&plan)[7..], ["[error] c: denied".to_string(), String::new()]);
    assert!(matches!(plan.outcome, Outcome::Exit));
    assert_eq!(
        lines(&list(&vec![], false)),
        vec!["No categories yet. `nixlayer add <package>` to create one."]
    );
}

#[test]
fn one_category_is_listed() {
    let text = Some(Ok(Category::template("b")));
    let plan = list_one(&paths(), "b", &text, &vec![], false);
    assert_eq!(lines(&plan), vec!["b (0)", "  (empty)"]);
    let known = vec!["app".to_string(), "b".to_string()];
    let plan = list_one(&paths(), "z", &None, &known, false);
    assert!(matches!(plan.outcome, Outcome::Fail(NixlayerError::UnknownCategory(n, k)) if n == "z" && k == "app, b"));
    let plan = list_one(&paths(), "z", &Some(Err("denied".to_string())), &known, false);
    assert!(matches!(plan.outcome, Outcome::Fail(NixlayerError::Io(_))));
}

#[test]
fn categories_are_counted() {
    assert_eq!(
        lines(&categories(&load_all(&paths(), &with_broken()))),
        vec![
            "  app                  2 package(s)",
            "  b                    0 package(s)",
            "  c                    0 package(s) (parse error!)",
        ]
    );
    assert_eq!(lines(&categories(&vec![])), vec!["No categories yet."]);
}

#[test]
fn names_are_located() {
    let mut f = files();
    let all = load_all(&paths(), &f);
    assert_eq!(
        lines(&where_pkg(&paths(), &all, "vlc", false)),
        vec!["'vlc' is in category 'app' (/x/modules/nixlayer/app.nix)"]
    );
    assert_eq!(lines(&where_pkg(&paths(), &all, "z", false)), vec!["'z' is not managed by nixlayer."]);
    let mut c = Category::new_empty("d", String::new());
    c.add("vlc");
    f.push(StoredFile { name: "d.nix".to_string(), text: Ok(c.render().unwrap()) });
    assert_eq!(
        lines(&where_pkg(&paths(), &load_all(&paths(), &f), "vlc", false)),
        vec![
            "[warn] 'vlc' is declared in 2 categories (this is a conflict): app, d",
            "Resolve with: nixlayer move vlc <category>",
        ]
    );
}

#[test]
fn differences_are_shown() {
    let mut old = State::new();
    old.insert("a".to_string(), vec!["x".to_string()]);
    let mut new = State::new();
    new.insert("a".to_string(), vec!["y".to_string()]);
    let d = state::diff(&old, &new);
    assert_eq!(lines(&diff(false, &d, false)), vec!["a", "  + y", "  - x", ""]);
    assert_eq!(
        lines(&diff(true, &vec![], false)),
        vec![
            "No rebuild recorded yet — the first `nixlayer rebuild` will apply everything below.",
            "No pending changes since the last rebuild.",
        ]
    );
}

#[test]
fn sources_are_listed() {
    assert_eq!(
        lines(&github_list(&load_all(&paths(), &with_broken()), false)),
        vec!["  hypr                 o/r@0123456789 [(unpinned ref)] -> default (app)"]
    );
    assert_eq!(
        lines(&github_list(&vec![], false)),
        vec!["No GitHub-sourced packages yet. `nixlayer github add <owner>/<repo>` to add one."]
    );
}

#[test]
fn search_results_are_shown() {
    let mut p = package("firefox", None);
    p.description = Some("browser".to_string());
    let plan = search("fire", &vec![p, package("x", None)], false);
    assert_eq!(
        lines(&plan),
        vec![
            "2 match(es) for 'fire':\n".to_string(),
            format!("  {:<28} {:<12} browser", "firefox", "?"),
            format!("  {:<28} {:<12} ", "x", "?"),
            "\nRun `nixlayer info <attribute>` for full details, or `nixlayer add <attribute>` to add one.".to_string(),
        ]
    );
    assert_eq!(lines(&search("q", &vec![], false)), vec!["No nixpkgs packages matched 'q'."]);
}

#[test]
fn packages_are_shown() {
    let mut p = package("steam", Some("steam"));
    p.license = vec!["unfree".to_string()];
    p.free = false;
    p.broken = true;
    p.version = Some("1".to_string());
    p.source = Backend::Legacy;
    let l = lines(&info(&p, false));
    assert_eq!(l[..5], ["steam", "  package name : steam", "  version      : 1", "  license      : unfree", "  status       : UNFREE"].map(String::from));
    assert!(l[5].starts_with("\nThis package is unfree. NixOS will refuse"));
    assert_eq!(l[6], "[warn] this package is currently marked broken in nixpkgs.");
    assert_eq!(l[7], "\nsource: nix-env (legacy/channel mode — reduced metadata)");
    assert_eq!(
        lines(&info(&package("a", None), false)),
        vec!["a", "  status       : free", "\nsource: nix eval (flakes, nixpkgs registry)"]
    );
}

#[test]
fn colours_are_codes() {
    assert_eq!(ok(true, "m").text, "\u{1b}[32m✓\u{1b}[0m m");
    assert_eq!(warn(true, "m").text, "\u{1b}[33m!\u{1b}[0m m");
    assert_eq!(error(true, "m").text, "\u{1b}[31m✗\u{1b}[0m m");
    assert!(error(true, "m").to_stderr && !ok(true, "m").to_stderr);
    assert_eq!(bold(true, "m"), "\u{1b}[1mm\u{1b}[0m");
    assert_eq!(dim(true, "m"), "\u{1b}[2mm\u{1b}[0m");
    assert_eq!((bold(false, "m"), dim(false, "m")), ("m".to_string(), "m".to_string()));
    assert_eq!(heading(true, "m").text, bold(true, "m"));
}

#[test]
fn answers_default_to_no() {
    let yes = |s: &str| confirm(&Some(s.to_string()));
    assert!(yes("y") && yes(" YES \n") && yes("Yes") && yes("Y"));
    assert!(!yes("") && !yes("yep") && !yes("n") && !yes("ye s"));
    assert!(!confirm(&None));
    assert_eq!(confirm_prompt("Sure?"), "Sure? [y/N] ");
    let choice = |s: &str| prompt_choice(&Some(s.to_string()), 3);
    assert_eq!((choice("1"), choice(" 3\n"), choice("+2")), (Some(0), Some(2), Some(1)));
    assert_eq!((choice("0"), choice("4"), choice(""), choice("x")), (None, None, None, None));
    assert_eq!(prompt_choice(&None, 3), None);
    assert_eq!(choice_prompt(10), "Which one? [1-10, Enter to cancel] ");
}

#[test]
fn suggestions_never_guess() {
    assert!(matches!(suggest("q", &vec![], false), Suggestion::Nothing(NixlayerError::ResolverFailed(m)) if m == "no nixpkgs package matches 'q'"));
    let v = vec![package("a", None), package("b", Some("q"))];
    assert!(matches!(suggest("q", &v, false), Suggestion::Take(a) if a == "b"));
    let v = vec![package("spicetify-cli", None), package("other", None)];
    assert!(matches!(suggest("spicetify", &v, false), Suggestion::Ask(q, a)
        if a == "spicetify-cli" && q == "'spicetify' isn't an exact match — did you mean 'spicetify-cli'? ()"));
    let v: Vec<PackageInfo> = (0..12).map(|i| package(&format!("p{i}"), None)).collect();
    match suggest("zzz", &v, false) {
        Suggestion::Pick(steps, names) => {
            assert_eq!(names.len(), 10);
            assert_eq!(names[9], "p9");
            assert_eq!(steps.len(), 11);
            match (&steps[0], &steps[10]) {
                (Step::Print(a), Step::Print(b)) => {
                    assert_eq!(a.text, "'zzz' matched 10 package(s):");
                    assert_eq!(b.text, format!("  10) {:<28} ", "p9"));
                }
                _ => panic!("expected lines"),
            }
        }
        _ => panic!("expected a choice"),
    }
    let yes = Some("y".to_string());
    assert_eq!(accept(&"a".to_string(), &yes).unwrap(), "a");
    assert!(accept(&"a".to_string(), &None).is_err());
    let names = vec!["a".to_string(), "b".to_string()];
    assert_eq!(pick(&names, &Some("2".to_string())).unwrap(), "b");
    assert!(matches!(pick(&names, &Some("3".to_string())), Err(NixlayerError::ResolverFailed(m)) if m == "cancelled — re-run with the exact attribute name."));
}

#[test]
fn lookups_go_step_by_step() {
    let (stage, action) = resolve_or_suggest("spicetify");
    assert!(matches!(action, Action::Resolve(a) if a == "spicetify"));
    let failed = Event::Resolved(Err(NixlayerError::NoNixFound));
    let (stage, action) = proceed("spicetify", stage, failed, false);
    assert!(matches!(action, Action::Search(q) if q == "spicetify"));
    let found = Event::Searched(Ok(vec![package("spicetify-cli", None)]));
    let (stage, action) = proceed("spicetify", stage, found, false);
    assert!(matches!(action, Action::Ask(_)));
    let (stage, action) = proceed("spicetify", stage, Event::Answered(Some("yes".to_string())), false);
    assert!(matches!(action, Action::Resolve(a) if a == "spicetify-cli"));
    let (_, action) =
        proceed("spicetify", stage, Event::Resolved(Ok(package("spicetify-cli", None))), false);
    assert!(matches!(action, Action::Done(p) if p.attribute == "spicetify-cli"));
    let (_, action) = proceed("x", Stage::Exact, Event::Resolved(Ok(package("x", None))), false);
    assert!(matches!(action, Action::Done(_)));
    let (_, action) = proceed("x", Stage::Confirming("a".to_string()), Event::Answered(None), false);
    assert!(matches!(action, Action::Fail(NixlayerError::ResolverFailed(_))));
    let (stage, action) =
        proceed("x", Stage::Picking(vec!["a".to_string()]), Event::Answered(Some("1".to_string())), false);
    assert!(matches!(stage, Stage::Fetching) && matches!(action, Action::Resolve(a) if a == "a"));
    let (_, action) = proceed("x", Stage::Searching, Event::Searched(Err(NixlayerError::NoNixFound)), false);
    assert!(matches!(action, Action::Fail(NixlayerError::NoNixFound)));
    let (_, action) = proceed("x", Stage::Fetching, Event::Answered(None), false);
    assert!(matches!(action, Action::Fail(_)));
}

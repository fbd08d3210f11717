use nixlayer::category::{Category, GithubSource};
use nixlayer::error::NixlayerError;
use nixlayer::state::{diff, State, StoredState};

fn state(pairs: &[(&str, &[&str])]) -> State {
    let mut s = State::new();
    for (name, pkgs) in pairs {
        s.insert(name.to_string(), pkgs.iter().map(|s| s.to_string()).collect());
    }
    s
}

#[test]
fn detects_additions_and_removals() {
    let old = state(&[("app", &["firefox"]), ("gaming", &["steam"])]);
    let new = state(&[("app", &["firefox", "vlc"]), ("gaming", &[])]);
    let d = diff(&old, &new);
    assert_eq!(d.len(), 2);
    let app = d.iter().find(|c| c.category == "app").unwrap();
    assert_eq!(app.added, vec!["vlc".to_string()]);
    assert!(app.removed.is_empty());
    let gaming = d.iter().find(|c| c.category == "gaming").unwrap();
    assert_eq!(gaming.removed, vec!["steam".to_string()]);
}

#[test]
fn no_diff_when_equal() {
    let a = state(&[("app", &["firefox"])]);
    let b = state(&[("app", &["firefox"])]);
    assert!(diff(&a, &b).is_empty());
}

#[test]
fn new_category_shows_as_all_additions() {
    let old = state(&[]);
    let new = state(&[("browsers", &["firefox", "chromium"])]);
    let d = diff(&old, &new);
    assert_eq!(d.len(), 1);
    assert_eq!(d[0].category, "browsers");
    assert_eq!(d[0].added.len(), 2);
}

#[test]
fn inserting_keeps_names_sorted_and_unique() {
    let mut s = state(&[("b", &["x"]), ("a", &["y"]), ("c", &[]), ("b", &["z"])]);
    let names: Vec<&String> = s.categories().iter().map(|c| &c.0).collect();
    assert_eq!(names, vec!["a", "b", "c"]);
    assert_eq!(s.packages("b"), vec!["z".to_string()]);
    assert!(s.packages("nope").is_empty());
    let t = s.clone();
    s.insert("d".to_string(), vec![]);
    assert_eq!(t.categories().len(), 3);
    assert_eq!(s.categories().len(), 4);
    assert!(State::default().categories().is_empty());
}

#[test]
fn loading_follows_the_file() {
    assert!(State::load(StoredState::Missing).unwrap().categories().is_empty());
    assert!(matches!(
        State::load(StoredState::Unreadable("io".to_string())),
        Err(NixlayerError::Io(m)) if m == "io"
    ));
    assert!(matches!(
        State::load(StoredState::Malformed("json".to_string())),
        Err(NixlayerError::Json(m)) if m == "json"
    ));
    let s = State::load(StoredState::Parsed(state(&[("a", &["x"])]))).unwrap();
    assert_eq!(s.packages("a"), vec!["x".to_string()]);
}

#[test]
fn nothing_is_pending_right_after_a_capture() {
    let mut a = Category::new_empty("app", "app.nix".to_string());
    a.add("vlc");
    a.add("firefox");
    a.packages.reverse();
    a.add_github(GithubSource {
        name: "g".to_string(),
        owner: "o".to_string(),
        repo: "r".to_string(),
        rev: "1234567".to_string(),
        git_ref: None,
        attr: "default".to_string(),
    });
    let all = vec![
        ("app".to_string(), Ok(a)),
        ("broken".to_string(), Err(NixlayerError::Io("x".to_string()))),
    ];
    let s = State::capture_current(&all);
    assert_eq!(s.categories().len(), 1);
    assert_eq!(s.packages("app"), vec!["firefox".to_string(), "vlc".to_string()]);
    assert!(diff(&s, &State::capture_current(&all)).is_empty());
}

#[test]
fn changes_ascend_and_turn() {
    let old = state(&[("b", &["x"]), ("a", &["y"]), ("same", &["z"])]);
    let new = state(&[("c", &["w"]), ("a", &["v"]), ("same", &["z"])]);
    let there = diff(&old, &new);
    let back = diff(&new, &old);
    let names: Vec<&str> = there.iter().map(|c| c.category.as_str()).collect();
    assert_eq!(names, vec!["a", "b", "c"]);
    assert_eq!(there.len(), back.len());
    for (t, b) in there.iter().zip(&back) {
        assert_eq!((&t.category, &t.added, &t.removed), (&b.category, &b.removed, &b.added));
    }
}

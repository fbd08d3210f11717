//! Setting up: the managed directory, and the one line in `configuration.nix` that imports it.

use vstd::prelude::*;

use crate::category::{plain_text, with_inner, Category, DEFAULT_CATEGORY};
use crate::default_nix::{module_text, render};
use crate::error::{ErrorView, NixlayerError};
use crate::nixfile::{
    block, char_from, find_block, lemma_block, lemma_char_from_is, CheckView, SyntaxCheck,
};
use crate::paths::{
    backup_of, backup_path, category_path, managed, path_file_name, path_with_file_name, text_view,
    Found, Paths, PathsView,
};
use crate::plan::{
    done, fail, failed, finish, lemma_stored, no_steps, start, step_views, store, stored, writes, OutcomeView,
    Plan, PlanView, Step, StepView,
};
use crate::sources::opt_view;
use crate::text::{
    chars_of, concat3, contains, find, includes, is_space, last_at, lemma_find_from, lemma_one_word,
    lemma_words_blank, lemma_words_concat, occurs_at, slice, space, trim_start, words,
};

verus! {

/// The line that imports the managed directory.
pub const IMPORT_LINE: &'static str = "./modules/nixlayer/default.nix";

/// The word in front of a list of imports.
pub const IMPORT_MARKER: &'static str = "imports";

// ---------------------------------------------------------------------------
// The list of imports
// ---------------------------------------------------------------------------

/// Only white space stands between the start of its line and position `i`.
pub open spec fn starts_its_line(s: Seq<char>, i: int) -> bool {
    forall|j: int| last_at(s.take(i), '\n') < j < i ==> is_space(#[trigger] s[j])
}

/// An equals sign and an opening bracket follow, with nothing but white space before each.
pub open spec fn list_follows(s: Seq<char>) -> bool {
    let after = trim_start(s);
    let list = trim_start(after.skip(1));
    &&& after.len() > 0
    &&& after[0] == '='
    &&& list.len() > 0
    &&& list[0] == '['
}

/// A list of imports is defined at position `i`: the word stands there, first in its line, and
/// `= [` follows it.
pub open spec fn defines_imports(s: Seq<char>, i: int) -> bool {
    &&& occurs_at(s, IMPORT_MARKER@, i)
    &&& starts_its_line(s, i)
    &&& list_follows(s.skip(i + IMPORT_MARKER@.len()))
}

/// The first position, `from` or later, at which a list of imports is defined.
pub open spec fn imports_from(s: Seq<char>, from: int) -> Option<int>
    decreases s.len() - from,
{
    if from < 0 || from >= s.len() {
        None
    } else if defines_imports(s, from) {
        Some(from)
    } else {
        imports_from(s, from + 1)
    }
}

pub proof fn lemma_imports_from(s: Seq<char>, from: int)
    requires
        0 <= from,
    ensures
        match imports_from(s, from) {
            Some(i) => from <= i < s.len() && defines_imports(s, i) && forall|j: int|
                from <= j < i ==> !defines_imports(s, j),
            None => forall|j: int| from <= j ==> !defines_imports(s, j),
        },
    decreases s.len() - from,
{
    reveal_strlit("imports");
    if from < s.len() && !defines_imports(s, from) {
        lemma_imports_from(s, from + 1);
    }
}

/// Positions at which nothing is defined can be skipped.
proof fn lemma_imports_skip(s: Seq<char>, from: int, to: int)
    requires
        0 <= from <= to,
        forall|j: int| from <= j < to ==> !defines_imports(s, j),
    ensures
        imports_from(s, from) == imports_from(s, to),
    decreases to - from,
{
    if from < to {
        lemma_imports_skip(s, from + 1, to);
        if from >= s.len() {
            assert(imports_from(s, to) is None);
        }
    }
}

fn line_starts(cs: &Vec<char>, i: usize) -> (r: bool)
    requires
        i <= cs@.len(),
    ensures
        r == starts_its_line(cs@, i as int),
{
    let ghost s = cs@;
    let mut j: usize = i;
    assert(s.take(i as int).take(i as int) =~= s.take(i as int));
    while j > 0 && cs[j - 1] != '\n'
        invariant
            j <= i <= cs@.len(),
            s == cs@,
            forall|k: int| j <= k < i ==> is_space(#[trigger] s[k]),
            last_at(s.take(i as int), '\n') == last_at(s.take(j as int), '\n'),
        decreases j,
    {
        assert(s.take(j as int).drop_last() =~= s.take(j - 1));
        assert(s.take(j as int).last() == s[j - 1]);
        if !space(cs[j - 1]) {
            proof {
                lemma_last_at(s.take(j - 1), '\n');
                assert(!is_space(s[j - 1]));
            }
            return false;
        }
        j = j - 1;
    }
    proof {
        lemma_last_at(s.take(j as int), '\n');
        if j > 0 {
            assert(s.take(j as int).last() == s[j - 1]);
        }
    }
    true
}

pub proof fn lemma_last_at(s: Seq<char>, c: char)
    ensures
        -1 <= last_at(s, c) < s.len(),
        s.len() > 0 && s.last() == c ==> last_at(s, c) == s.len() - 1,
    decreases s.len(),
{
    if s.len() > 0 && s.last() != c {
        lemma_last_at(s.drop_last(), c);
    }
}

/// The first position, `from` or later, that holds no white space.
fn past_space(cs: &Vec<char>, from: usize) -> (r: usize)
    requires
        from <= cs@.len(),
    ensures
        from <= r <= cs@.len(),
        trim_start(cs@.skip(from as int)) == cs@.skip(r as int),
{
    let mut i: usize = from;
    while i < cs.len() && space(cs[i])
        invariant
            from <= i <= cs@.len(),
            trim_start(cs@.skip(from as int)) == trim_start(cs@.skip(i as int)),
        decreases cs@.len() - i,
    {
        assert(cs@.skip(i as int)[0] == cs@[i as int]);
        assert(cs@.skip(i as int).drop_first() =~= cs@.skip(i + 1));
        i = i + 1;
    }
    assert(i < cs@.len() ==> cs@.skip(i as int)[0] == cs@[i as int]);
    i
}

fn list_behind(cs: &Vec<char>, from: usize) -> (r: bool)
    requires
        from <= cs@.len(),
    ensures
        r == list_follows(cs@.skip(from as int)),
{
    let i: usize = past_space(cs, from);
    if i == cs.len() || cs[i] != '=' {
        return false;
    }
    let k: usize = past_space(cs, i + 1);
    assert(cs@.skip(i as int).skip(1) =~= cs@.skip(i + 1));
    k < cs.len() && cs[k] == '['
}

proof fn lemma_no_overlap(s: Seq<char>, i: int, j: int)
    requires
        occurs_at(s, IMPORT_MARKER@, i),
        i < j < i + 7,
    ensures
        !occurs_at(s, IMPORT_MARKER@, j),
{
    reveal_strlit("imports");
    if occurs_at(s, IMPORT_MARKER@, j) {
        assert(s.subrange(i, i + 7)[j - i] == s[j]);
        assert(s.subrange(j, j + 7)[0] == s[j]);
    }
}

/// The first position, in characters, at which a list of imports is defined.
pub fn find_imports_marker(text: &str) -> (r: Option<usize>)
    ensures
        match r {
            Some(i) => imports_from(text@, 0) == Some(i as int),
            None => imports_from(text@, 0) is None,
        },
{
    let cs: Vec<char> = chars_of(text);
    let pat: Vec<char> = chars_of(IMPORT_MARKER);
    let n: usize = cs.len();
    let mut from: usize = 0;
    proof {
        reveal_strlit("imports");
    }
    while from < n
        invariant
            from <= n,
            n == cs@.len(),
            cs@ == text@,
            pat@ == IMPORT_MARKER@,
            IMPORT_MARKER@.len() == 7,
            imports_from(text@, 0) == imports_from(text@, from as int),
        decreases n - from,
    {
        let i: usize = match find(&cs, &pat, from) {
            Some(i) => i,
            None => {
                proof {
                    lemma_find_from(text@, IMPORT_MARKER@, from as int);
                    lemma_imports_from(text@, from as int);
                }
                return None;
            },
        };
        proof {
            lemma_find_from(text@, IMPORT_MARKER@, from as int);
            lemma_imports_skip(text@, from as int, i as int);
        }
        if line_starts(&cs, i) && list_behind(&cs, i + 7) {
            return Some(i);
        }
        proof {
            assert forall|j: int| i <= j < i + 7 implies !defines_imports(text@, j) by {
                if j > i {
                    lemma_no_overlap(text@, i as int, j);
                }
            }
            lemma_imports_skip(text@, i as int, i + 7);
        }
        from = i + 7;
    }
    None
}

// ---------------------------------------------------------------------------
// The edit
// ---------------------------------------------------------------------------

/// How many characters of `s` stand before the spaces, tabs and line feeds at its end.
pub open spec fn body_len(s: Seq<char>) -> int
    decreases s.len(),
{
    if s.len() > 0 && (s.last() == ' ' || s.last() == '\t' || s.last() == '\n') {
        body_len(s.drop_last())
    } else {
        s.len() as int
    }
}

/// A list of imports with the line for the managed directory at its end. The white space before
/// the closing bracket stays where it was.
pub open spec fn with_import(inner: Seq<char>) -> Seq<char> {
    let body = inner.take(body_len(inner));
    let end = inner.skip(body_len(inner));
    body + (if body.len() > 0 {
        "\n"@
    } else {
        Seq::empty()
    }) + "    "@ + IMPORT_LINE@ + (if end.len() > 0 {
        end
    } else {
        "\n"@
    })
}

/// What is to be done with `configuration.nix`.
#[derive(Debug)]
pub enum Patch {
    /// The managed directory is imported already.
    AlreadyImported,
    /// It is not clear where the line belongs; the text tells the user what to do.
    ByHand(String),
    /// The file gets this text.
    Edit(String),
}

/// A [`Patch`] with its text as a character sequence.
pub enum PatchView {
    AlreadyImported,
    ByHand(Seq<char>),
    Edit(Seq<char>),
}

impl View for Patch {
    type V = PatchView;

    open spec fn view(&self) -> PatchView {
        match *self {
            Patch::AlreadyImported => PatchView::AlreadyImported,
            Patch::ByHand(t) => PatchView::ByHand(t@),
            Patch::Edit(t) => PatchView::Edit(t@),
        }
    }
}

pub open spec fn no_list_text(path: Seq<char>) -> Seq<char> {
    "Could not confidently find an `imports = [ ... ];` list in "@ + path
        + ".\nAdd this line to your imports list by hand:\n\n    "@ + IMPORT_LINE@ + "\n"@
}

pub open spec fn two_lists_text(path: Seq<char>) -> Seq<char> {
    path
        + " contains more than one `imports = [ ... ];` block, so nixlayer can't tell which one is authoritative. Add this line to the right one yourself:\n\n    "@
        + IMPORT_LINE@ + "\n"@
}

pub open spec fn no_configuration_text(root: Seq<char>) -> Seq<char> {
    "No configuration.nix found at "@ + root
        + ". Add this import to whichever module makes up your system config:\n\n    "@ + IMPORT_LINE@
        + "\n"@
}

/// What is to be done with a `configuration.nix` that holds `text`: the line goes into the one
/// list of imports, where there is exactly one.
pub open spec fn patch_of(path: Seq<char>, text: Seq<char>) -> PatchView {
    if contains(text, IMPORT_LINE@) {
        PatchView::AlreadyImported
    } else {
        match imports_from(text, 0) {
            None => PatchView::ByHand(no_list_text(path)),
            Some(m) => match block(text, '[', ']', m) {
                None => PatchView::ByHand(no_list_text(path)),
                Some(span) => if imports_from(text.skip(span.1), 0) is Some {
                    PatchView::ByHand(two_lists_text(path))
                } else {
                    PatchView::Edit(
                        with_inner(text, span, with_import(text.subrange(span.0 + 1, span.1))),
                    )
                },
            },
        }
    }
}

fn insert_import(inner: &str) -> (r: String)
    ensures
        r@ == with_import(inner@),
{
    let cs: Vec<char> = chars_of(inner);
    let mut k: usize = cs.len();
    assert(cs@.take(cs@.len() as int) =~= cs@);
    while k > 0 && (cs[k - 1] == ' ' || cs[k - 1] == '\t' || cs[k - 1] == '\n')
        invariant
            k <= cs@.len(),
            body_len(cs@) == body_len(cs@.take(k as int)),
        decreases k,
    {
        assert(cs@.take(k as int).drop_last() =~= cs@.take(k - 1));
        k = k - 1;
    }
    let body: String = slice(&cs, 0, k);
    let end: String = slice(&cs, k, cs.len());
    assert(body@ =~= inner@.take(k as int));
    assert(end@ =~= inner@.skip(k as int));
    let mut out: String = body;
    if k > 0 {
        out.append("\n");
    }
    assert(k == 0 ==> out@ =~= inner@.take(0) + Seq::<char>::empty());
    out.append("    ");
    out.append(IMPORT_LINE);
    if k < cs.len() {
        out.append(&end);
    } else {
        out.append("\n");
    }
    out
}

fn by_hand(path: &str) -> (r: Patch)
    ensures
        r@ == PatchView::ByHand(no_list_text(path@)),
{
    let mut s: String = concat3(
        "Could not confidently find an `imports = [ ... ];` list in ",
        path,
        ".\nAdd this line to your imports list by hand:\n\n    ",
    );
    s.append(IMPORT_LINE);
    s.append("\n");
    Patch::ByHand(s)
}

/// Decide what is to be done with `configuration.nix`.
pub fn patch_configuration(path: &str, text: &str) -> (r: Patch)
    ensures
        r@ == patch_of(path@, text@),
{
    if includes(text, IMPORT_LINE) {
        return Patch::AlreadyImported;
    }
    let m: usize = match find_imports_marker(text) {
        Some(m) => m,
        None => {
            return by_hand(path);
        },
    };
    let cs: Vec<char> = chars_of(text);
    let n: usize = cs.len();
    proof {
        lemma_imports_from(text@, 0);
    }
    let (p, q): (usize, usize) = match find_block(&cs, '[', ']', m) {
        Some(b) => b,
        None => {
            return by_hand(path);
        },
    };
    proof {
        lemma_block(text@, '[', ']', m as int);
    }
    let rest: String = slice(&cs, q, n);
    assert(rest@ =~= text@.skip(q as int));
    if find_imports_marker(&rest).is_some() {
        let mut s: String = concat3(
            path,
            " contains more than one `imports = [ ... ];` block, so nixlayer can't tell which one is authoritative. Add this line to the right one yourself:\n\n    ",
            IMPORT_LINE,
        );
        s.append("\n");
        return Patch::ByHand(s);
    }
    let inner: String = insert_import(&slice(&cs, p + 1, q));
    let head: String = slice(&cs, 0, p + 1);
    assert(head@ =~= text@.take(p + 1));
    Patch::Edit(concat3(&head, &inner, &rest))
}

// ---------------------------------------------------------------------------
// Setting up
// ---------------------------------------------------------------------------

/// What setting up does, or would do.
#[derive(Debug)]
pub struct InitReport {
    pub created_dir: bool,
    pub created_default_nix: bool,
    pub created_default_category: bool,
    pub configuration_nix_patched: bool,
    pub configuration_nix_already_ok: bool,
    pub manual_step_needed: Option<String>,
}

/// An [`InitReport`] with its text as a character sequence.
pub struct ReportView {
    pub created_dir: bool,
    pub created_default_nix: bool,
    pub created_default_category: bool,
    pub configuration_nix_patched: bool,
    pub configuration_nix_already_ok: bool,
    pub manual_step_needed: Option<Seq<char>>,
}

impl View for InitReport {
    type V = ReportView;

    open spec fn view(&self) -> ReportView {
        ReportView {
            created_dir: self.created_dir,
            created_default_nix: self.created_default_nix,
            created_default_category: self.created_default_category,
            configuration_nix_patched: self.configuration_nix_patched,
            configuration_nix_already_ok: self.configuration_nix_already_ok,
            manual_step_needed: opt_view(self.manual_step_needed),
        }
    }
}

/// What is to be written in setting up, in order, and what is to be reported once it is.
#[derive(Debug)]
pub struct InitPlan {
    /// The directory that is to be made first, with everything above it.
    pub create_dir: Option<String>,
    pub steps: Vec<Step>,
    pub report: Result<InitReport, NixlayerError>,
    /// Where `configuration.nix` is edited, the text that it had: its syntax is to be checked
    /// after the steps, and this is what it gets back if it fails.
    pub original: Option<String>,
}

/// An [`InitPlan`] with its texts as character sequences.
pub struct InitPlanView {
    pub create_dir: Option<Seq<char>>,
    pub steps: Seq<StepView>,
    pub report: Result<ReportView, ErrorView>,
    pub original: Option<Seq<char>>,
}

pub open spec fn report_view(r: Result<InitReport, NixlayerError>) -> Result<ReportView, ErrorView> {
    match r {
        Ok(p) => Ok(p@),
        Err(e) => Err(e@),
    }
}

impl View for InitPlan {
    type V = InitPlanView;

    open spec fn view(&self) -> InitPlanView {
        InitPlanView {
            create_dir: opt_view(self.create_dir),
            steps: step_views(self.steps@),
            report: report_view(self.report),
            original: opt_view(self.original),
        }
    }
}

/// What is found on disk before setting up.
#[derive(Debug)]
pub struct BeforeInit {
    pub found: Found,
    /// The file of the default category is there.
    pub default_category: bool,
    /// The text of `configuration.nix`, or what went wrong in reading it. Of interest only where
    /// there is such a file.
    pub configuration: Result<String, String>,
    /// The time, in seconds since the epoch.
    pub secs: u64,
}

/// The module and the default category, where it is not there yet.
pub open spec fn module_steps(p: PathsView, default_category: bool) -> Seq<StepView> {
    let module = stored(no_steps(), managed(p, "default.nix"@), module_text(false));
    if default_category {
        module
    } else {
        stored(
            module,
            category_path(p, DEFAULT_CATEGORY@),
            plain_text(DEFAULT_CATEGORY@, "\n  "@),
        )
    }
}

/// What is done in setting up. With `dry_run`, nothing is written.
pub open spec fn init_plan(p: PathsView, before: BeforeInit, dry_run: bool) -> InitPlanView {
    let made = if dry_run {
        no_steps()
    } else {
        module_steps(p, before.default_category)
    };
    let create_dir = if dry_run {
        None
    } else {
        Some(p.nixlayer_dir)
    };
    let report = ReportView {
        created_dir: !before.found.dir,
        created_default_nix: !before.found.default_nix,
        created_default_category: !before.default_category,
        configuration_nix_patched: false,
        configuration_nix_already_ok: false,
        manual_step_needed: None,
    };
    if before.found.dir && before.found.default_nix {
        InitPlanView {
            create_dir: None,
            steps: no_steps(),
            report: Err(ErrorView::AlreadyInitialized(p.nixlayer_dir)),
            original: None,
        }
    } else {
        match p.configuration_nix {
            None => InitPlanView {
                create_dir,
                steps: made,
                report: Ok(
                    ReportView {
                        manual_step_needed: Some(no_configuration_text(p.config_root)),
                        ..report
                    },
                ),
                original: None,
            },
            Some(path) => match text_view(before.configuration) {
                Err(m) => InitPlanView {
                    create_dir,
                    steps: made,
                    report: Err(ErrorView::Io(m)),
                    original: None,
                },
                Ok(text) => match patch_of(path, text) {
                    PatchView::AlreadyImported => InitPlanView {
                        create_dir,
                        steps: made,
                        report: Ok(ReportView { configuration_nix_already_ok: true, ..report }),
                        original: None,
                    },
                    PatchView::ByHand(m) => InitPlanView {
                        create_dir,
                        steps: made,
                        report: Ok(ReportView { manual_step_needed: Some(m), ..report }),
                        original: None,
                    },
                    PatchView::Edit(new_text) => InitPlanView {
                        create_dir,
                        steps: if dry_run {
                            made
                        } else {
                            stored(
                                stored(
                                    made,
                                    path_with_file_name(
                                        path,
                                        backup_of(path_file_name(path), before.secs as nat),
                                    ),
                                    text,
                                ),
                                path,
                                new_text,
                            )
                        },
                        report: Ok(ReportView { configuration_nix_patched: true, ..report }),
                        original: if dry_run {
                            None
                        } else {
                            Some(text)
                        },
                    },
                },
            },
        }
    }
}

/// Decide what is done in setting up. A backup of `configuration.nix` is written before it is
/// edited.
pub fn run(paths: &Paths, before: &BeforeInit, dry_run: bool) -> (r: InitPlan)
    ensures
        r@ == init_plan(paths@, *before, dry_run),
{
    let mut steps: Vec<Step> = start();
    if paths.is_initialized(&before.found) {
        return InitPlan {
            create_dir: None,
            steps,
            report: Err(NixlayerError::AlreadyInitialized(paths.nixlayer_dir.clone())),
            original: None,
        };
    }
    let mut report: InitReport = InitReport {
        created_dir: !before.found.dir,
        created_default_nix: !before.found.default_nix,
        created_default_category: !before.default_category,
        configuration_nix_patched: false,
        configuration_nix_already_ok: false,
        manual_step_needed: None,
    };
    let create_dir: Option<String> = if dry_run {
        None
    } else {
        Some(paths.nixlayer_dir.clone())
    };
    if !dry_run {
        store(&mut steps, paths.default_nix(), render().to_string());
        if !before.default_category {
            store(
                &mut steps,
                paths.category_file(DEFAULT_CATEGORY),
                Category::template(DEFAULT_CATEGORY),
            );
        }
    }
    let path: &String = match &paths.configuration_nix {
        Some(path) => path,
        None => {
            let mut s: String = concat3(
                "No configuration.nix found at ",
                &paths.config_root,
                ". Add this import to whichever module makes up your system config:\n\n    ",
            );
            s.append(IMPORT_LINE);
            s.append("\n");
            report.manual_step_needed = Some(s);
            return InitPlan { create_dir, steps, report: Ok(report), original: None };
        },
    };
    let text: &String = match &before.configuration {
        Ok(text) => text,
        Err(m) => {
            return InitPlan {
                create_dir,
                steps,
                report: Err(NixlayerError::Io(m.clone())),
                original: None,
            };
        },
    };
    match patch_configuration(path, text) {
        Patch::AlreadyImported => {
            report.configuration_nix_already_ok = true;
            InitPlan { create_dir, steps, report: Ok(report), original: None }
        },
        Patch::ByHand(m) => {
            report.manual_step_needed = Some(m);
            InitPlan { create_dir, steps, report: Ok(report), original: None }
        },
        Patch::Edit(new_text) => {
            report.configuration_nix_patched = true;
            if dry_run {
                return InitPlan { create_dir, steps, report: Ok(report), original: None };
            }
            store(&mut steps, backup_path(path, before.secs), text.clone());
            store(&mut steps, path.clone(), new_text);
            InitPlan { create_dir, steps, report: Ok(report), original: Some(text.clone()) }
        },
    }
}

/// What a failed check of an edited `configuration.nix` is reported as.
pub open spec fn reverted_text(path: Seq<char>, msg: Seq<char>) -> Seq<char> {
    "patching "@ + path + " would have produced invalid Nix syntax, so nixlayer reverted it:\n"@ + msg
        + "\n\nPlease add this line to your imports list by hand:\n\n    "@ + IMPORT_LINE@ + "\n"@
}

/// What follows the check of an edited `configuration.nix`: where its syntax is wrong, it gets its
/// original text back, and the command fails.
pub open spec fn edit_plan(path: Seq<char>, original: Seq<char>, check: CheckView) -> PlanView {
    match check {
        CheckView::Invalid(m) => failed(
            stored(no_steps(), path, original),
            ErrorView::Other(reverted_text(path, m)),
        ),
        _ => done(no_steps()),
    }
}

/// Decide whether an edited `configuration.nix` stays, or gets its original text back.
pub fn judge_edit(path: &str, original: &str, check: &SyntaxCheck) -> (r: Plan)
    ensures
        r@ == edit_plan(path@, original@, check@),
{
    let mut steps: Vec<Step> = start();
    match check {
        SyntaxCheck::Invalid(m) => {
            let mut s: String = concat3(
                "patching ",
                path,
                " would have produced invalid Nix syntax, so nixlayer reverted it:\n",
            );
            s.append(m);
            s.append("\n\nPlease add this line to your imports list by hand:\n\n    ");
            s.append(IMPORT_LINE);
            s.append("\n");
            store(&mut steps, path.to_string(), original.to_string());
            fail(steps, NixlayerError::Other(s))
        },
        SyntaxCheck::Valid => finish(steps),
        SyntaxCheck::Skipped => finish(steps),
    }
}

// ---------------------------------------------------------------------------
// Laws
// ---------------------------------------------------------------------------

pub proof fn lemma_body_len(s: Seq<char>)
    ensures
        0 <= body_len(s) <= s.len(),
        forall|j: int| body_len(s) <= j < s.len() ==> s[j] == ' ' || s[j] == '\t' || s[j] == '\n',
    decreases s.len(),
{
    if s.len() > 0 && (s.last() == ' ' || s.last() == '\t' || s.last() == '\n') {
        let t = s.drop_last();
        lemma_body_len(t);
        assert forall|j: int| body_len(s) <= j < s.len() implies s[j] == ' ' || s[j] == '\t' || s[j]
            == '\n' by {
            if j < t.len() {
                assert(s[j] == t[j]);
            }
        }
    }
}

/// An edited file imports the managed directory: editing it again finds nothing to do.
pub proof fn patching_twice_is_patching_once(path: Seq<char>, text: Seq<char>)
    ensures
        patch_of(path, text) matches PatchView::Edit(new_text) ==> patch_of(path, new_text)
            == PatchView::AlreadyImported,
{
    if let PatchView::Edit(t) = patch_of(path, text) {
        lemma_imports_from(text, 0);
        let m = imports_from(text, 0)->0;
        lemma_block(text, '[', ']', m);
        let (p, q) = block(text, '[', ']', m)->0;
        let inner = text.subrange(p + 1, q);
        lemma_body_len(inner);
        let body = inner.take(body_len(inner));
        let sep = if body.len() > 0 {
            "\n"@
        } else {
            Seq::empty()
        };
        let k = p + 1 + body.len() + sep.len() + "    "@.len();
        let n = IMPORT_LINE@.len();
        assert(t.subrange(k, k + n) =~= IMPORT_LINE@);
        assert(occurs_at(t, IMPORT_LINE@, k));
    }
}

/// White space at the start of a text is behind its first characters.
pub proof fn lemma_past_space(s: Seq<char>, i: int) -> (j: int)
    requires
        0 <= i <= s.len(),
    ensures
        i <= j <= s.len(),
        trim_start(s.skip(i)) == s.skip(j),
        forall|k: int| i <= k < j ==> is_space(#[trigger] s[k]),
    decreases s.len() - i,
{
    if i < s.len() && is_space(s[i]) {
        assert(s.skip(i).drop_first() =~= s.skip(i + 1));
        lemma_past_space(s, i + 1)
    } else {
        assert(i < s.len() ==> s.skip(i)[0] == s[i]);
        i
    }
}

/// The block behind a definition of imports opens with the bracket of that definition.
pub proof fn lemma_list_of_imports(s: Seq<char>, m: int)
    requires
        0 <= m,
        defines_imports(s, m),
    ensures
        char_from(s, '[', m) < s.len(),
        s.skip(char_from(s, '[', m)) == trim_start(trim_start(s.skip(m + IMPORT_MARKER@.len())).skip(1)),
{
    reveal_strlit("imports");
    let n = m + 7;
    let i = lemma_past_space(s, n);
    assert(s.skip(i)[0] == s[i]);
    assert(s.skip(i).skip(1) =~= s.skip(i + 1));
    let k = lemma_past_space(s, i + 1);
    assert(s.skip(k)[0] == s[k]);
    assert forall|j: int| m <= j < k implies s[j] != '[' by {
        if j < n {
            assert(s.subrange(m, n)[j - m] == s[j]);
        }
    }
    lemma_char_from_is(s, '[', m, k);
}

/// An edit touches the inside of one list only, the one that `imports = [` opens, and keeps what
/// was in it: the new list starts with the old one, up to the white space before its closing
/// bracket.
pub proof fn patching_keeps_the_rest(path: Seq<char>, text: Seq<char>)
    ensures
        patch_of(path, text) matches PatchView::Edit(new_text) ==> {
            let span = block(text, '[', ']', imports_from(text, 0)->0)->0;
            let inner = text.subrange(span.0 + 1, span.1);
            let new_inner = with_import(inner);
            &&& 0 <= span.0 < span.1 < text.len()
            &&& defines_imports(text, imports_from(text, 0)->0)
            &&& text.skip(span.0) == trim_start(
                trim_start(text.skip(imports_from(text, 0)->0 + IMPORT_MARKER@.len())).skip(1),
            )
            &&& new_text == text.take(span.0 + 1) + new_inner + text.skip(span.1)
            &&& new_inner.take(body_len(inner)) == inner.take(body_len(inner))
            &&& forall|j: int|
                body_len(inner) <= j < inner.len() ==> is_space(#[trigger] inner[j])
        },
{
    if patch_of(path, text) is Edit {
        lemma_imports_from(text, 0);
        let m = imports_from(text, 0)->0;
        lemma_block(text, '[', ']', m);
        let (p, q) = block(text, '[', ']', m)->0;
        let inner = text.subrange(p + 1, q);
        lemma_body_len(inner);
        lemma_list_of_imports(text, m);
        assert(with_import(inner).take(body_len(inner)) =~= inner.take(body_len(inner)));
    }
}

/// The words of an edited list are the old ones, and then the line that imports the managed
/// directory.
pub proof fn edited_lists_gain_one_word(inner: Seq<char>)
    ensures
        words(with_import(inner)) == words(inner).push(IMPORT_LINE@),
{
    lemma_body_len(inner);
    let n = body_len(inner);
    let body = inner.take(n);
    let end = inner.skip(n);
    reveal_strlit("\n");
    reveal_strlit("    ");
    reveal_strlit("./modules/nixlayer/default.nix");
    let indent = (if body.len() > 0 {
        "\n"@
    } else {
        Seq::empty()
    }) + "    "@;
    let new_end = if end.len() > 0 {
        end
    } else {
        "\n"@
    };
    assert forall|j: int| 0 <= j < end.len() implies is_space(#[trigger] end[j]) by {
        assert(end[j] == inner[n + j]);
    }
    lemma_words_blank(end);
    lemma_words_blank(new_end);
    lemma_words_blank(indent);
    lemma_one_word(IMPORT_LINE@);
    assert(inner =~= body + end);
    lemma_words_concat(body, end);
    assert(words(inner) =~= words(body));
    let tail = IMPORT_LINE@ + new_end;
    lemma_words_concat(IMPORT_LINE@, new_end);
    assert(words(tail) =~= seq![IMPORT_LINE@]);
    lemma_words_concat(indent, tail);
    assert(words(indent + tail) =~= seq![IMPORT_LINE@]);
    lemma_words_concat(body, indent + tail);
    assert(with_import(inner) =~= body + (indent + tail));
    assert(words(with_import(inner)) =~= words(inner).push(IMPORT_LINE@));
}

/// A dry run writes nothing, and setting up what is set up already writes nothing either.
pub proof fn dry_init_writes_nothing(p: PathsView, before: BeforeInit, dry_run: bool)
    requires
        dry_run || (before.found.dir && before.found.default_nix),
    ensures
        init_plan(p, before, dry_run).steps.len() == 0,
        init_plan(p, before, dry_run).create_dir is None,
        init_plan(p, before, dry_run).original is None,
{
}

/// Before `configuration.nix` is edited, the text that it had is written to the backup.
pub proof fn edits_are_backed_up(p: PathsView, before: BeforeInit)
    ensures
        init_plan(p, before, false).original matches Some(text) ==> {
            let path = p.configuration_nix->0;
            let steps = init_plan(p, before, false).steps;
            let n = steps.len();
            &&& n >= 2
            &&& steps[n - 2] == StepView::Write(
                path_with_file_name(path, backup_of(path_file_name(path), before.secs as nat)),
                text,
            )
            &&& patch_of(path, text) matches PatchView::Edit(new_text) && steps[n - 1]
                == StepView::Write(path, new_text)
        },
{
}

/// An edit is never left half-applied: where the edited file turns out to be wrong, the one write
/// that follows gives the file the text that it had, and the command fails. Otherwise nothing
/// more is written.
pub proof fn invalid_edits_are_reverted(
    p: PathsView,
    before: BeforeInit,
    path: Seq<char>,
    check: CheckView,
)
    requires
        p.configuration_nix == Some(path),
        init_plan(p, before, false).original is Some,
    ensures
        ({
            let original = init_plan(p, before, false).original->0;
            let plan = edit_plan(path, original, check);
            &&& text_view(before.configuration) == Ok::<Seq<char>, Seq<char>>(original)
            &&& check is Invalid ==> plan.outcome is Fail && writes(plan.steps) == seq![
                (path, original),
            ]
            &&& !(check is Invalid) ==> plan.outcome == OutcomeView::Done && writes(plan.steps).len()
                == 0
        }),
{
    let original = init_plan(p, before, false).original->0;
    lemma_stored(no_steps(), path, original);
    assert(writes(no_steps()) =~= Seq::empty());
    assert(writes(stored(no_steps(), path, original)) =~= seq![(path, original)]);
}

/// Setting up writes to the module, to the default category, to `configuration.nix` and to its
/// backup, and to nothing else.
pub proof fn init_writes_where_it_belongs(p: PathsView, before: BeforeInit, dry_run: bool, k: int)
    requires
        0 <= k < init_plan(p, before, dry_run).steps.len(),
    ensures
        init_plan(p, before, dry_run).steps[k] matches StepView::Write(path, _) && {
            ||| path == managed(p, "default.nix"@)
            ||| path == category_path(p, DEFAULT_CATEGORY@)
            ||| p.configuration_nix matches Some(c) && (path == c || path == path_with_file_name(
                c,
                backup_of(path_file_name(c), before.secs as nat),
            ))
        },
{
}

} // verus!

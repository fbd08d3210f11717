//! What is shown and asked: lines with and without colours, and the answers to questions.

use vstd::prelude::*;

use crate::sources::opt_view;
use crate::text::{
    chars_of, concat2, concat3, count_text, decimal, number, parse_number, trim, trimmed,
};

verus! {

pub const GREEN: &'static str = "\x1b[32m";

pub const YELLOW: &'static str = "\x1b[33m";

pub const RED: &'static str = "\x1b[31m";

pub const BOLD: &'static str = "\x1b[1m";

pub const DIM: &'static str = "\x1b[2m";

pub const RESET: &'static str = "\x1b[0m";

/// A line of output, and whether it goes to standard error.
#[derive(Debug, Clone)]
pub struct Line {
    pub text: String,
    pub to_stderr: bool,
}

/// A [`Line`] with its text as a character sequence.
pub struct LineView {
    pub text: Seq<char>,
    pub to_stderr: bool,
}

impl View for Line {
    type V = LineView;

    open spec fn view(&self) -> LineView {
        LineView { text: self.text@, to_stderr: self.to_stderr }
    }
}

/// A text in bold, where colours are on.
pub open spec fn bold_text(colors: bool, msg: Seq<char>) -> Seq<char> {
    if colors {
        BOLD@ + msg + RESET@
    } else {
        msg
    }
}

/// A dimmed text, where colours are on.
pub open spec fn dim_text(colors: bool, msg: Seq<char>) -> Seq<char> {
    if colors {
        DIM@ + msg + RESET@
    } else {
        msg
    }
}

pub open spec fn plain_line(msg: Seq<char>) -> LineView {
    LineView { text: msg, to_stderr: false }
}

pub open spec fn ok_line(colors: bool, msg: Seq<char>) -> LineView {
    plain_line(
        if colors {
            GREEN@ + "✓"@ + RESET@ + " "@ + msg
        } else {
            "[ok] "@ + msg
        },
    )
}

pub open spec fn warn_line(colors: bool, msg: Seq<char>) -> LineView {
    plain_line(
        if colors {
            YELLOW@ + "!"@ + RESET@ + " "@ + msg
        } else {
            "[warn] "@ + msg
        },
    )
}

pub open spec fn error_line(colors: bool, msg: Seq<char>) -> LineView {
    LineView {
        text: if colors {
            RED@ + "✗"@ + RESET@ + " "@ + msg
        } else {
            "[error] "@ + msg
        },
        to_stderr: true,
    }
}

pub open spec fn heading_line(colors: bool, msg: Seq<char>) -> LineView {
    plain_line(bold_text(colors, msg))
}

fn marked(color: &str, mark: &str, msg: &str) -> (r: String)
    ensures
        r@ == color@ + mark@ + RESET@ + " "@ + msg@,
{
    let mut s: String = concat3(color, mark, RESET);
    s.append(" ");
    s.append(msg);
    s
}

/// A line that says that something went well.
pub fn ok(colors: bool, msg: &str) -> (r: Line)
    ensures
        r@ == ok_line(colors, msg@),
{
    if colors {
        plain(marked(GREEN, "✓", msg))
    } else {
        plain(concat2("[ok] ", msg))
    }
}

/// A line that warns.
pub fn warn(colors: bool, msg: &str) -> (r: Line)
    ensures
        r@ == warn_line(colors, msg@),
{
    if colors {
        plain(marked(YELLOW, "!", msg))
    } else {
        plain(concat2("[warn] ", msg))
    }
}

/// A line that reports an error, on standard error.
pub fn error(colors: bool, msg: &str) -> (r: Line)
    ensures
        r@ == error_line(colors, msg@),
{
    let text: String = if colors {
        marked(RED, "✗", msg)
    } else {
        concat2("[error] ", msg)
    };
    Line { text, to_stderr: true }
}

/// A text in bold, where colours are on.
pub fn bold(colors: bool, msg: &str) -> (r: String)
    ensures
        r@ == bold_text(colors, msg@),
{
    if colors {
        concat3(BOLD, msg, RESET)
    } else {
        msg.to_string()
    }
}

/// A dimmed text, where colours are on.
pub fn dim(colors: bool, msg: &str) -> (r: String)
    ensures
        r@ == dim_text(colors, msg@),
{
    if colors {
        concat3(DIM, msg, RESET)
    } else {
        msg.to_string()
    }
}

/// A heading.
pub fn heading(colors: bool, msg: &str) -> (r: Line)
    ensures
        r@ == heading_line(colors, msg@),
{
    plain(bold(colors, msg))
}

/// A line without any mark.
pub fn plain(text: String) -> (r: Line)
    ensures
        r@ == plain_line(text@),
{
    Line { text, to_stderr: false }
}

// ---------------------------------------------------------------------------
// Questions
// ---------------------------------------------------------------------------

/// A letter in lower case; any other character as it is.
pub open spec fn lower(c: char) -> char {
    if 'A' <= c && c <= 'Z' {
        (c as u32 + 32) as char
    } else {
        c
    }
}

/// `s` is `word`, but for the case of letters.
pub open spec fn same_letters(s: Seq<char>, word: Seq<char>) -> bool {
    s.len() == word.len() && forall|i: int| 0 <= i < s.len() ==> lower(#[trigger] s[i]) == word[i]
}

/// An answer that says yes: `y` or `yes`, in either case and with white space around it.
pub open spec fn says_yes(answer: Seq<char>) -> bool {
    same_letters(trim(answer), "y"@) || same_letters(trim(answer), "yes"@)
}

/// An answer that was given and says yes.
pub open spec fn agrees(answer: Option<Seq<char>>) -> bool {
    match answer {
        Some(a) => says_yes(a),
        None => false,
    }
}

/// The option that an answer picks of `max` options, counted from 0. The answer counts from 1.
pub open spec fn picked(answer: Seq<char>, max: nat) -> Option<nat> {
    match number(trim(answer)) {
        Some(n) => if 1 <= n <= max {
            Some((n - 1) as nat)
        } else {
            None
        },
        None => None,
    }
}

fn spells(s: &str, word: &str) -> (r: bool)
    ensures
        r == same_letters(s@, word@),
{
    let a: Vec<char> = chars_of(s);
    let b: Vec<char> = chars_of(word);
    if a.len() != b.len() {
        return false;
    }
    let mut i: usize = 0;
    while i < a.len()
        invariant
            i <= a@.len(),
            a@ == s@,
            b@ == word@,
            a@.len() == b@.len(),
            forall|j: int| 0 <= j < i ==> lower(#[trigger] a@[j]) == b@[j],
        decreases a@.len() - i,
    {
        let c: char = a[i];
        let d: char = if 'A' <= c && c <= 'Z' {
            (c as u8 + 32u8) as char
        } else {
            c
        };
        assert(a@[i as int] == c);
        assert(d == lower(c));
        if d != b[i] {
            return false;
        }
        i = i + 1;
    }
    true
}

/// What is asked before something that cannot be taken back.
pub fn confirm_prompt(prompt: &str) -> (r: String)
    ensures
        r@ == prompt@ + " [y/N] "@,
{
    concat2(prompt, " [y/N] ")
}

/// Whether the answer is yes. An empty answer, no answer and anything unclear mean no.
pub fn confirm(answer: &Option<String>) -> (r: bool)
    ensures
        r == agrees(opt_view(*answer)),
{
    match answer {
        Some(a) => {
            let t: String = trimmed(a);
            spells(&t, "y") || spells(&t, "yes")
        },
        None => false,
    }
}

/// What is asked where one of several options is to be picked.
pub fn choice_prompt(max: usize) -> (r: String)
    ensures
        r@ == "Which one? [1-"@ + decimal(max as nat) + ", Enter to cancel] "@,
{
    concat3("Which one? [1-", &count_text(max), ", Enter to cancel] ")
}

/// The option that was picked, counted from 0. An empty answer, no answer and a number out of
/// range cancel: nothing is guessed.
pub fn prompt_choice(answer: &Option<String>, max: usize) -> (r: Option<usize>)
    ensures
        match *answer {
            Some(a) => match r {
                Some(i) => picked(a@, max as nat) == Some(i as nat),
                None => picked(a@, max as nat) is None,
            },
            None => r is None,
        },
{
    match answer {
        Some(a) => match parse_number(&trimmed(a)) {
            Some(n) => if 1 <= n && n <= max {
                Some(n - 1)
            } else {
                None
            },
            None => None,
        },
        None => None,
    }
}

/// A picked option is one of those that were offered, and an empty answer picks none.
pub proof fn picks_are_in_range(answer: Seq<char>, max: nat)
    ensures
        picked(answer, max) matches Some(i) ==> i < max,
        trim(answer).len() == 0 ==> picked(answer, max) is None && !says_yes(answer),
{
    reveal_strlit("y");
    reveal_strlit("yes");
}

} // verus!

//! Calls of outside programs and what comes back.

use vstd::prelude::*;

use crate::text::{lemma_views_push, views};

verus! {

/// A program and the arguments that it is run with.
#[derive(Debug, Clone)]
pub struct ToolCall {
    pub program: String,
    pub args: Vec<String>,
}

/// A [`ToolCall`] with its texts as character sequences.
pub struct CallView {
    pub program: Seq<char>,
    pub args: Seq<Seq<char>>,
}

impl View for ToolCall {
    type V = CallView;

    open spec fn view(&self) -> CallView {
        CallView { program: self.program@, args: views(self.args@) }
    }
}

/// What a program that was run gave back: whether it succeeded, and what it wrote to standard
/// error.
#[derive(Debug, Clone)]
pub struct ToolOutput {
    pub success: bool,
    pub stderr: String,
}

/// What came of asking a program for data.
#[derive(Debug)]
pub enum Reply<T> {
    /// The program could not be launched; the text says why.
    NotRun(String),
    /// The program failed; the text is what it wrote to standard error.
    Failed(String),
    /// The program succeeded, but what it wrote is not of the expected shape; the text says why.
    Malformed(String),
    Data(T),
}

/// A call without arguments.
pub fn call(program: &str) -> (r: ToolCall)
    ensures
        r@ == (CallView { program: program@, args: Seq::empty() }),
{
    let args: Vec<String> = Vec::new();
    assert(views(args@) =~= Seq::<Seq<char>>::empty());
    ToolCall { program: program.to_string(), args }
}

impl ToolCall {
    /// The call with one more argument.
    pub fn arg(self, a: &str) -> (r: ToolCall)
        ensures
            r@ == (CallView { program: self@.program, args: self@.args.push(a@) }),
    {
        let mut args: Vec<String> = self.args;
        let s: String = a.to_string();
        proof {
            lemma_views_push(args@, s);
        }
        args.push(s);
        ToolCall { program: self.program, args }
    }
}

} // verus!

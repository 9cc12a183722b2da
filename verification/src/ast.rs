//! The abstract syntax tree a successful parse produces, and its
//! mathematical model.
//!
//! Grammar, one type per production:
//! ```text
//! CommandLine := Job ( (";" | "&") CommandLine? )?
//! Job         := Command ( "|" Job )?
//! Command     := SimpleCmd ( ("<" | ">") Text )?
//! SimpleCmd   := Text Text*
//! ```

use vstd::prelude::*;

verus! {

/// Separator after a job: `;` runs in sequence, `&` runs in the background.
#[derive(Clone, Copy, Debug, PartialEq, Eq, Structural)]
pub enum CommandLineOp {
    Sequence,
    Background,
}

/// The one operator that joins pipeline stages.
#[derive(Clone, Copy, Debug, PartialEq, Eq, Structural)]
pub enum JobOp {
    Pipe,
}

/// Direction of a redirection: `<` reads the file, `>` writes it.
#[derive(Clone, Copy, Debug, PartialEq, Eq, Structural)]
pub enum CommandOp {
    RedirectIn,
    RedirectOut,
}

/// An executable path, alone or with its arguments in order.
#[derive(Debug, PartialEq)]
pub enum SimpleCmdExpr {
    Exe(String),
    ExeWithArgs(String, Vec<String>),
}

/// A simple command, bare or with one redirection target.
#[derive(Debug, PartialEq)]
pub enum CommandExpr {
    Bare(Box<SimpleCmdExpr>),
    Redirected(Box<SimpleCmdExpr>, CommandOp, String),
}

/// A pipeline: one command, or a command piped into the rest of the job.
#[derive(Debug, PartialEq)]
pub enum JobExpr {
    Single(Box<CommandExpr>),
    Piped(Box<CommandExpr>, JobOp, Box<JobExpr>),
}

/// A whole command line: one job, a job followed by a separator and more, or
/// a job with a trailing (dangling) separator and nothing valid after it.
#[derive(Debug, PartialEq)]
pub enum CommandLineExpr {
    Single(Box<JobExpr>),
    Sequenced(Box<JobExpr>, CommandLineOp, Box<CommandLineExpr>),
    Dangling(Box<JobExpr>, CommandLineOp),
}

/// Model of `SimpleCmdExpr`: text as character sequences.
pub enum SimpleCmdView {
    Exe(Seq<char>),
    ExeWithArgs(Seq<char>, Seq<Seq<char>>),
}

/// Model of `CommandExpr`.
pub enum CommandView {
    Bare(SimpleCmdView),
    Redirected(SimpleCmdView, CommandOp, Seq<char>),
}

/// Model of `JobExpr`.
pub enum JobView {
    Single(CommandView),
    Piped(CommandView, JobOp, Box<JobView>),
}

/// Model of `CommandLineExpr`.
pub enum CommandLineView {
    Single(JobView),
    Sequenced(JobView, CommandLineOp, Box<CommandLineView>),
    Dangling(JobView, CommandLineOp),
}

impl View for SimpleCmdExpr {
    type V = SimpleCmdView;

    open spec fn view(&self) -> SimpleCmdView {
        match self {
            SimpleCmdExpr::Exe(path) => SimpleCmdView::Exe(path@),
            SimpleCmdExpr::ExeWithArgs(path, args) => SimpleCmdView::ExeWithArgs(
                path@,
                args.deep_view(),
            ),
        }
    }
}

impl View for CommandExpr {
    type V = CommandView;

    open spec fn view(&self) -> CommandView {
        match self {
            CommandExpr::Bare(sc) => CommandView::Bare(sc@),
            CommandExpr::Redirected(sc, op, target) => CommandView::Redirected(sc@, *op, target@),
        }
    }
}

impl View for JobExpr {
    type V = JobView;

    open spec fn view(&self) -> JobView
        decreases self,
    {
        match self {
            JobExpr::Single(c) => JobView::Single(c@),
            JobExpr::Piped(c, op, rest) => JobView::Piped(c@, *op, Box::new((**rest)@)),
        }
    }
}

impl View for CommandLineExpr {
    type V = CommandLineView;

    open spec fn view(&self) -> CommandLineView
        decreases self,
    {
        match self {
            CommandLineExpr::Single(j) => CommandLineView::Single(j@),
            CommandLineExpr::Sequenced(j, op, rest) => CommandLineView::Sequenced(
                j@,
                *op,
                Box::new((**rest)@),
            ),
            CommandLineExpr::Dangling(j, op) => CommandLineView::Dangling(j@, *op),
        }
    }
}

} // verus!

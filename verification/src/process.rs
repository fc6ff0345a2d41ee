//! Commands that the dispatcher has run for it, and what came of them.

use vstd::prelude::*;

use crate::text;

verus! {

/// A command to run.
#[derive(Clone, Debug, PartialEq, Eq)]
pub struct Command {
    pub program: String,
    pub args: Vec<String>,
    /// Is it stopped once it has taken too long?
    pub bounded: bool,
    /// How long to wait before it is started.
    pub pause_millis: u64,
}

/// [`Command`] as values.
#[verifier::ext_equal]
pub struct CommandView {
    pub program: Seq<char>,
    pub args: Seq<Seq<char>>,
    pub bounded: bool,
    pub pause_millis: u64,
}

impl View for Command {
    type V = CommandView;

    open spec fn view(&self) -> CommandView {
        CommandView {
            program: self.program@,
            args: text::texts(self.args@),
            bounded: self.bounded,
            pause_millis: self.pause_millis,
        }
    }
}

/// What came of a command.
#[derive(Clone, Debug, PartialEq, Eq)]
pub enum Reply {
    /// It ran: its exit code, where it has one, and what it wrote.
    Exited { code: Option<i32>, stdout: String, stderr: String },
    /// It could not be run, or was stopped; and why.
    NotRun(String),
}

/// [`Reply`] as values.
pub enum ReplyView {
    Exited { code: Option<i32>, stdout: Seq<char>, stderr: Seq<char> },
    NotRun(Seq<char>),
}

impl View for Reply {
    type V = ReplyView;

    open spec fn view(&self) -> ReplyView {
        match self {
            Reply::Exited { code, stdout, stderr } => ReplyView::Exited {
                code: *code,
                stdout: stdout@,
                stderr: stderr@,
            },
            Reply::NotRun(why) => ReplyView::NotRun(why@),
        }
    }
}

impl ReplyView {
    /// Did it run, and end well?
    pub open spec fn succeeded(self) -> bool {
        self matches ReplyView::Exited { code, .. } && code == Some(0i32)
    }

    /// What it complained of: its error output, or why it did not run.
    pub open spec fn complaint(self) -> Seq<char> {
        match self {
            ReplyView::Exited { stderr, .. } => stderr,
            ReplyView::NotRun(why) => why,
        }
    }
}

impl Reply {
    /// Did it run, and end well?
    pub fn success(&self) -> (r: bool)
        ensures
            r == self@.succeeded(),
    {
        match self {
            Reply::Exited { code, .. } => match code {
                Some(code) => *code == 0,
                None => false,
            },
            Reply::NotRun(_) => false,
        }
    }

    /// What it complained of.
    pub fn complaint(&self) -> (r: &str)
        ensures
            r@ == self@.complaint(),
    {
        match self {
            Reply::Exited { stderr, .. } => stderr.as_str(),
            Reply::NotRun(why) => why.as_str(),
        }
    }
}

/// A git command in a repository.
pub open spec fn git_in(repo: Seq<char>, args: Seq<Seq<char>>) -> CommandView {
    CommandView {
        program: "git"@,
        args: seq!["-C"@, repo] + args,
        bounded: false,
        pause_millis: 0,
    }
}

/// The arguments as strings of their own.
pub fn owned(args: &[&str]) -> (r: Vec<String>)
    ensures
        text::texts(r@) == text::slices(args@),
{
    let mut r: Vec<String> = Vec::new();
    let mut i: usize = 0;
    while i < args.len()
        invariant
            i <= args.len(),
            r.len() == i,
            forall|j: int| 0 <= j < i ==> (#[trigger] r@[j])@ == args@[j]@,
        decreases args.len() - i,
    {
        r.push(args[i].to_owned());
        i += 1;
    }
    assert(text::texts(r@) =~= text::slices(args@));
    r
}

/// A git command in a repository.
pub fn git(repo: &str, args: &[&str]) -> (r: Command)
    ensures
        r@ == git_in(repo@, text::slices(args@)),
{
    let mut all: Vec<String> = Vec::new();
    all.push("-C".to_owned());
    all.push(repo.to_owned());
    let ghost front = all@;
    let mut rest: Vec<String> = owned(args);
    let ghost back = rest@;
    all.append(&mut rest);
    proof {
        assert(text::texts(all@) =~= text::texts(front) + text::texts(back));
        assert(text::texts(front) =~= seq!["-C"@, repo@]);
    }
    Command { program: "git".to_owned(), args: all, bounded: false, pause_millis: 0 }
}

/// A tmux command.
pub open spec fn tmux_with(args: Seq<Seq<char>>) -> CommandView {
    CommandView { program: "tmux"@, args, bounded: false, pause_millis: 0 }
}

/// A tmux command.
pub fn tmux(args: &[&str]) -> (r: Command)
    ensures
        r@ == tmux_with(text::slices(args@)),
{
    Command { program: "tmux".to_owned(), args: owned(args), bounded: false, pause_millis: 0 }
}

/// A command went well exactly where it ran and ended with exit code zero: one that was
/// killed has no code, and one that did not run has not ended.
pub proof fn only_exit_code_zero_is_success(reply: ReplyView)
    ensures
        reply.succeeded() <==> exists|stdout: Seq<char>, stderr: Seq<char>|
            reply == (#[trigger] exited(Some(0i32), stdout, stderr)),
        reply matches ReplyView::Exited { stderr, .. } ==> reply.complaint() == stderr,
        reply matches ReplyView::NotRun(why) ==> reply.complaint() == why && !reply.succeeded(),
{
    match reply {
        ReplyView::Exited { code, stdout, stderr } => {
            assert(reply == exited(code, stdout, stderr));
        },
        ReplyView::NotRun(_) => {},
    }
}

/// A command that ran.
pub open spec fn exited(code: Option<i32>, stdout: Seq<char>, stderr: Seq<char>) -> ReplyView {
    ReplyView::Exited { code, stdout, stderr }
}

/// A git command is run in its repository, with its own arguments behind it, and takes as
/// long as it takes.
pub proof fn git_is_told_its_repository(repo: Seq<char>, args: Seq<Seq<char>>)
    ensures
        git_in(repo, args).program == "git"@,
        git_in(repo, args).args == seq!["-C"@, repo] + args,
        !git_in(repo, args).bounded,
        git_in(repo, args).pause_millis == 0,
        tmux_with(args).program == "tmux"@,
        tmux_with(args).args == args,
        !tmux_with(args).bounded,
{
}

} // verus!

//! What a procedure asks to be done, and what it may be told.

use vstd::prelude::*;

use crate::process::{Command, CommandView, Reply, ReplyView};

verus! {

/// What stands at a path.
#[derive(Clone, Copy, Debug, PartialEq, Eq, Structural)]
pub enum PathKind {
    Absent,
    Directory,
    Link,
    Other,
}

/// Something to be done outside.
#[derive(Clone, Debug, PartialEq, Eq)]
pub enum Action {
    /// Run a command.
    Run(Command),
    /// Say what stands at a path; a link is itself the answer.
    InspectLink(String),
    /// Say what stands at a path; a link is followed.
    InspectTarget(String),
    /// Make a directory, and those above it.
    MakeDirs(String),
    /// Remove a link.
    Unlink(String),
    /// Remove a directory with all that is in it; links in it are not followed.
    RemoveTree(String),
    /// Open a tmux window in a directory.
    OpenWindow { window: String, dir: String },
    /// Note a window's directory on the window.
    SetDispatchDir { window: String, dir: String },
    /// See to it that split panes start in their window's directory.
    EnsureSplitHook,
    /// Close a tmux window, if it is there.
    KillWindow(String),
}

/// [`Action`] as values.
pub enum ActionView {
    Run(CommandView),
    InspectLink(Seq<char>),
    InspectTarget(Seq<char>),
    MakeDirs(Seq<char>),
    Unlink(Seq<char>),
    RemoveTree(Seq<char>),
    OpenWindow { window: Seq<char>, dir: Seq<char> },
    SetDispatchDir { window: Seq<char>, dir: Seq<char> },
    EnsureSplitHook,
    KillWindow(Seq<char>),
}

impl View for Action {
    type V = ActionView;

    open spec fn view(&self) -> ActionView {
        match self {
            Action::Run(command) => ActionView::Run(command@),
            Action::InspectLink(path) => ActionView::InspectLink(path@),
            Action::InspectTarget(path) => ActionView::InspectTarget(path@),
            Action::MakeDirs(path) => ActionView::MakeDirs(path@),
            Action::Unlink(path) => ActionView::Unlink(path@),
            Action::RemoveTree(path) => ActionView::RemoveTree(path@),
            Action::OpenWindow { window, dir } => ActionView::OpenWindow {
                window: window@,
                dir: dir@,
            },
            Action::SetDispatchDir { window, dir } => ActionView::SetDispatchDir {
                window: window@,
                dir: dir@,
            },
            Action::EnsureSplitHook => ActionView::EnsureSplitHook,
            Action::KillWindow(window) => ActionView::KillWindow(window@),
        }
    }
}

/// What came of an action.
#[derive(Clone, Debug, PartialEq, Eq)]
pub enum Answer {
    /// A command came back.
    Ran(Reply),
    /// This stands at the path.
    Found(PathKind),
    /// It is done.
    Finished,
    /// It could not be done; and why.
    Failed(String),
}

/// [`Answer`] as values.
pub enum AnswerView {
    Ran(ReplyView),
    Found(PathKind),
    Finished,
    Failed(Seq<char>),
}

impl View for Answer {
    type V = AnswerView;

    open spec fn view(&self) -> AnswerView {
        match self {
            Answer::Ran(reply) => AnswerView::Ran(reply@),
            Answer::Found(kind) => AnswerView::Found(*kind),
            Answer::Finished => AnswerView::Finished,
            Answer::Failed(why) => AnswerView::Failed(why@),
        }
    }
}

/// The answers as values.
pub open spec fn history(answers: Seq<Answer>) -> Seq<AnswerView> {
    answers.map_values(|a: Answer| a@)
}

impl AnswerView {
    /// What came of a command. An answer of another sort says that it did not
    /// run.
    pub open spec fn reply(self) -> ReplyView {
        match self {
            AnswerView::Ran(reply) => reply,
            AnswerView::Failed(why) => ReplyView::NotRun(why),
            _ => ReplyView::NotRun(Seq::empty()),
        }
    }

    /// Why an action failed; `None` where it did not.
    pub open spec fn failure(self) -> Option<Seq<char>> {
        match self {
            AnswerView::Ran(reply) => if reply.succeeded() {
                None
            } else {
                Some(reply.complaint())
            },
            AnswerView::Found(_) => None,
            AnswerView::Finished => None,
            AnswerView::Failed(why) => Some(why),
        }
    }
}

impl Answer {
    /// What came of a command.
    pub fn reply(&self) -> (r: Reply)
        ensures
            r@ == self@.reply(),
    {
        match self {
            Answer::Ran(Reply::Exited { code, stdout, stderr }) => Reply::Exited {
                code: *code,
                stdout: stdout.clone(),
                stderr: stderr.clone(),
            },
            Answer::Ran(Reply::NotRun(why)) => Reply::NotRun(why.clone()),
            Answer::Failed(why) => Reply::NotRun(why.clone()),
            _ => Reply::NotRun(String::new()),
        }
    }

    /// Why an action failed.
    pub fn failure(&self) -> (r: Option<String>)
        ensures
            match (r, self@.failure()) {
                (Some(s), Some(why)) => s@ == why,
                (None, None) => true,
                _ => false,
            },
    {
        match self {
            Answer::Ran(reply) => if reply.success() {
                None
            } else {
                Some(reply.complaint().to_owned())
            },
            Answer::Found(_) => None,
            Answer::Finished => None,
            Answer::Failed(why) => Some(why.clone()),
        }
    }
}

/// How far a procedure is.
pub enum Step<T> {
    /// It needs this done, and its answer, to go on.
    Ask(Action),
    /// It ended with this, and used the answers before this index.
    Done(T, usize),
    /// It ended with this error.
    Failed(String),
}

/// [`Step`] as values.
pub enum StepView<V> {
    Ask(ActionView),
    Done(V, int),
    Failed(Seq<char>),
}

impl<T: View> View for Step<T> {
    type V = StepView<T::V>;

    open spec fn view(&self) -> StepView<T::V> {
        match self {
            Step::Ask(action) => StepView::Ask(action@),
            Step::Done(value, used) => StepView::Done(value@, *used as int),
            Step::Failed(why) => StepView::Failed(why@),
        }
    }
}

/// A command that ended badly or did not run is a failure, as its complaint says; an
/// action that could not be done is one too; anything else is none.
pub proof fn only_what_went_wrong_is_a_failure(reply: ReplyView, why: Seq<char>, kind: PathKind)
    ensures
        AnswerView::Ran(reply).failure() is None <==> reply.succeeded(),
        !reply.succeeded() ==> AnswerView::Ran(reply).failure() == Some(reply.complaint()),
        AnswerView::Failed(why).failure() == Some(why),
        AnswerView::Finished.failure() is None,
        AnswerView::Found(kind).failure() is None,
        AnswerView::Ran(reply).reply() == reply,
        AnswerView::Failed(why).reply() == ReplyView::NotRun(why),
        !AnswerView::Finished.reply().succeeded(),
        !AnswerView::Found(kind).reply().succeeded(),
{
}

} // verus!

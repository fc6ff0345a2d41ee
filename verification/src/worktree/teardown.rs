//! Taking a task's window, worktree and branch away.

use vstd::prelude::*;

use crate::models;
use crate::paths;
use crate::paths::{PathText, PathView};
use crate::process;
use crate::process::{Command, Reply, ReplyView};
use crate::text;
use crate::worktree::steps;
use crate::worktree::steps::{Action, ActionView, Answer, AnswerView, PathKind, Step, StepView};

verus! {

/// The directory below a repository that holds its worktrees.
pub const WORKTREES_DIR: &'static str = ".worktrees";

/// What git says of a worktree that somebody locked.
pub const WORKTREE_LOCKED: &'static str = "locked working tree";

/// What the paths in a request are relative to.
#[derive(Clone, Debug)]
pub struct Surroundings {
    /// The user's home directory.
    pub home: String,
    /// The working directory, where it is known.
    pub cwd: Option<String>,
}

/// [`Surroundings`] as values.
pub struct SurroundingsView {
    pub home: Seq<char>,
    pub cwd: Option<Seq<char>>,
}

impl View for Surroundings {
    type V = SurroundingsView;

    open spec fn view(&self) -> SurroundingsView {
        SurroundingsView {
            home: self.home@,
            cwd: match self.cwd {
                Some(cwd) => Some(cwd@),
                None => None,
            },
        }
    }
}

/// The directory that holds a repository's worktrees.
pub open spec fn worktrees_root_of(repo: Seq<char>) -> Seq<char> {
    paths::joined(repo, WORKTREES_DIR@)
}

/// The directory that holds a repository's worktrees.
pub fn worktrees_root(repo: &str) -> (r: String)
    ensures
        r@ == worktrees_root_of(repo@),
{
    paths::join_path(repo, WORKTREES_DIR)
}

/// The branch of a worktree: the last name on its path.
pub open spec fn branch_of(worktree: Seq<char>) -> Option<Seq<char>> {
    paths::last_name(text::split_on(worktree, '/'))
}

/// The branch of a worktree.
pub fn branch_from_worktree(worktree: &str) -> (r: Option<String>)
    ensures
        match (r, branch_of(worktree@)) {
            (Some(s), Some(branch)) => s@ == branch,
            (None, None) => true,
            _ => false,
        },
{
    paths::file_name(worktree)
}

/// Where the leftover of a worktree is deleted.
pub open spec fn leftover_target(worktree: Seq<char>, around: SurroundingsView) -> PathView {
    paths::from_root(models::tilde_expanded(worktree, around.home), around.cwd)
}

/// Where leftovers may be deleted.
pub open spec fn leftover_root(repo: Seq<char>, around: SurroundingsView) -> PathView {
    paths::from_root(worktrees_root_of(repo), around.cwd)
}

/// May a leftover be deleted there? It has to lie strictly inside, as the two paths
/// are written and, so that no `..` leads out again, with every `..` resolved.
pub open spec fn may_delete(target: PathView, root: PathView) -> bool {
    paths::strictly_inside(target, root) && paths::strictly_inside(
        paths::settled(target),
        paths::settled(root),
    )
}

fn is_deletable(target: &PathText, root: &PathText) -> (r: bool)
    ensures
        r == may_delete(target@, root@),
{
    let settled_target: PathText = paths::settle(target);
    let settled_root: PathText = paths::settle(root);
    paths::is_strictly_inside(target, root) && paths::is_strictly_inside(
        &settled_target,
        &settled_root,
    )
}

/// The error where a leftover lies where nothing may be deleted.
pub open spec fn refusal(target: PathView, root: PathView) -> Seq<char> {
    text::glued(
        seq![
            "refusing to delete leftover worktree "@,
            paths::shown(target),
            ": it is not inside "@,
            paths::shown(root),
        ],
    )
}

/// Why a path could not be looked at.
pub open spec fn why_of(answer: AnswerView) -> Seq<char> {
    match answer.failure() {
        Some(why) => why,
        None => Seq::empty(),
    }
}

/// Make the worktree's path not exist, by the answers from index `at` on.
///
/// A path that is not there is as it should be, and one that cannot be looked at
/// is not. What is there is deleted where it lies strictly inside the directory
/// of the repository's worktrees, and refused anywhere else. A link is removed as
/// a link.
pub open spec fn clearing(
    repo: Seq<char>,
    worktree: Seq<char>,
    around: SurroundingsView,
    h: Seq<AnswerView>,
    at: int,
) -> StepView<()> {
    let named = paths::lexical(models::tilde_expanded(worktree, around.home));
    let target = leftover_target(worktree, around);
    let root = leftover_root(repo, around);
    if h.len() <= at {
        StepView::Ask(ActionView::InspectLink(paths::shown(named)))
    } else {
        match h[at] {
            AnswerView::Found(PathKind::Absent) => StepView::Done((), at + 1),
            AnswerView::Found(kind) => if !may_delete(target, root) {
                StepView::Failed(refusal(target, root))
            } else if h.len() <= at + 1 {
                StepView::Ask(
                    if kind == PathKind::Link {
                        ActionView::Unlink(paths::shown(target))
                    } else {
                        ActionView::RemoveTree(paths::shown(target))
                    },
                )
            } else {
                match h[at + 1].failure() {
                    Some(why) => StepView::Failed(
                        text::glued(
                            seq![
                                "failed to delete leftover worktree "@,
                                paths::shown(target),
                                ": "@,
                                why,
                            ],
                        ),
                    ),
                    None => StepView::Done((), at + 2),
                }
            },
            answer => StepView::Failed(
                text::glued(
                    seq![
                        "failed to inspect leftover worktree "@,
                        paths::shown(named),
                        ": "@,
                        why_of(answer),
                    ],
                ),
            ),
        }
    }
}

fn opt_str(s: &Option<String>) -> (r: Option<&str>)
    ensures
        match (r, *s) {
            (Some(a), Some(b)) => a@ == b@,
            (None, None) => true,
            _ => false,
        },
{
    match s {
        Some(s) => Some(s.as_str()),
        None => None,
    }
}

/// Make the worktree's path not exist.
pub fn delete_leftover_worktree_dir(
    repo: &str,
    worktree_path: &str,
    around: &Surroundings,
    answers: &Vec<Answer>,
    at: usize,
) -> (r: Step<()>)
    ensures
        r@ == clearing(repo@, worktree_path@, around@, steps::history(answers@), at as int),
{
    let expanded: String = models::expand_tilde(worktree_path, around.home.as_str());
    let named: PathText = paths::lexical_path(expanded.as_str());
    let named_text: String = paths::display(&named);
    if answers.len() <= at {
        return Step::Ask(Action::InspectLink(named_text));
    }
    let kind: PathKind = match &answers[at] {
        Answer::Found(PathKind::Absent) => {
            return Step::Done((), at + 1);
        },
        Answer::Found(kind) => *kind,
        answer => {
            let why: String = match answer.failure() {
                Some(why) => why,
                None => String::new(),
            };
            let parts = [
                "failed to inspect leftover worktree ",
                named_text.as_str(),
                ": ",
                why.as_str(),
            ];
            proof {
                assert(why@ == why_of(answer@));
                assert(text::slices(parts@) =~= seq![
                    "failed to inspect leftover worktree "@,
                    named_text@,
                    ": "@,
                    why@,
                ]);
            }
            return Step::Failed(text::glue(&parts));
        },
    };
    let cwd: Option<&str> = opt_str(&around.cwd);
    let target: PathText = paths::absolute_path(expanded.as_str(), cwd);
    let root_text: String = worktrees_root(repo);
    let root: PathText = paths::absolute_path(root_text.as_str(), cwd);
    let target_text: String = paths::display(&target);
    if !is_deletable(&target, &root) {
        let root_shown: String = paths::display(&root);
        let parts = [
            "refusing to delete leftover worktree ",
            target_text.as_str(),
            ": it is not inside ",
            root_shown.as_str(),
        ];
        proof {
            assert(text::slices(parts@) =~= seq![
                "refusing to delete leftover worktree "@,
                target_text@,
                ": it is not inside "@,
                root_shown@,
            ]);
        }
        return Step::Failed(text::glue(&parts));
    }
    if answers.len() - 1 <= at {
        return Step::Ask(
            if kind == PathKind::Link {
                Action::Unlink(target_text)
            } else {
                Action::RemoveTree(target_text)
            },
        );
    }
    match answers[at + 1].failure() {
        Some(why) => {
            let parts = [
                "failed to delete leftover worktree ",
                target_text.as_str(),
                ": ",
                why.as_str(),
            ];
            proof {
                assert(text::slices(parts@) =~= seq![
                    "failed to delete leftover worktree "@,
                    target_text@,
                    ": "@,
                    why@,
                ]);
            }
            Step::Failed(text::glue(&parts))
        },
        None => Step::Done((), at + 2),
    }
}

/// A git command that takes as long as it takes.
pub open spec fn plain_git(repo: Seq<char>, args: Seq<Seq<char>>) -> ActionView {
    ActionView::Run(process::git_in(repo, args))
}

fn run_git(repo: &str, args: &[&str]) -> (r: Action)
    ensures
        r@ == plain_git(repo@, text::slices(args@)),
{
    Action::Run(process::git(repo, args))
}

/// Have git remove a worktree.
pub open spec fn ask_remove(repo: Seq<char>, worktree: Seq<char>) -> ActionView {
    plain_git(repo, seq!["worktree"@, "remove"@, "--force"@, worktree])
}

/// Have git forget the worktrees that are gone.
pub open spec fn ask_prune(repo: Seq<char>) -> ActionView {
    plain_git(repo, seq!["worktree"@, "prune"@])
}

/// Have git delete a branch.
pub open spec fn ask_delete_branch(repo: Seq<char>, branch: Seq<char>) -> ActionView {
    plain_git(repo, seq!["branch"@, "-D"@, branch])
}

/// Why git did not remove a worktree; `None` where it did.
pub open spec fn remove_failure(reply: ReplyView) -> Option<Seq<char>> {
    match reply {
        ReplyView::NotRun(why) => Some("failed to run git worktree remove: "@ + why),
        ReplyView::Exited { code, stderr, .. } => if code == Some(0i32) {
            None
        } else {
            Some(stderr)
        },
    }
}

/// Why git did not remove a worktree.
fn remove_complaint(reply: &Reply) -> (r: Option<String>)
    ensures
        match (r, remove_failure(reply@)) {
            (Some(s), Some(why)) => s@ == why,
            (None, None) => true,
            _ => false,
        },
{
    match reply {
        Reply::NotRun(why) => Some(
            "failed to run git worktree remove: ".to_owned().concat(why.as_str()),
        ),
        Reply::Exited { stderr, .. } => if reply.success() {
            None
        } else {
            Some(stderr.clone())
        },
    }
}

/// The error where git did not remove a worktree.
pub open spec fn remove_error(worktree: Seq<char>, why: Seq<char>) -> Seq<char> {
    text::glued(seq!["git worktree remove failed for path "@, worktree, ": "@, why])
}

fn remove_error_text(worktree: &str, why: &str) -> (r: String)
    ensures
        r@ == remove_error(worktree@, why@),
{
    let parts = ["git worktree remove failed for path ", worktree, ": ", why];
    assert(text::slices(parts@) =~= seq![
        "git worktree remove failed for path "@,
        worktree@,
        ": "@,
        why@,
    ]);
    text::glue(&parts)
}

/// Delete the worktree's branch, by the answers from index `at` on. Whether that
/// succeeds does not matter: there may be no such branch.
pub open spec fn unbranching(repo: Seq<char>, worktree: Seq<char>, h: Seq<AnswerView>, at: int) -> StepView<
    (),
> {
    match branch_of(worktree) {
        Some(branch) => if h.len() <= at {
            StepView::Ask(ask_delete_branch(repo, branch))
        } else {
            StepView::Done((), at + 1)
        },
        None => StepView::Done((), at),
    }
}

/// Remove a worktree and its branch, by the answers from index `at` on.
///
/// Git goes first. A lock stops everything. Any other failure of git does not:
/// whether the worktree is gone is decided by what is on disk, so what git left
/// there is deleted, and then git is made to forget it, before the branch goes.
pub open spec fn removing(
    repo: Seq<char>,
    worktree: Seq<char>,
    around: SurroundingsView,
    h: Seq<AnswerView>,
    at: int,
) -> StepView<()> {
    if h.len() <= at {
        StepView::Ask(ask_remove(repo, worktree))
    } else {
        match remove_failure(h[at].reply()) {
            Some(why) => if text::has(why, WORKTREE_LOCKED@) {
                StepView::Failed(remove_error(worktree, why))
            } else {
                match clearing(repo, worktree, around, h, at + 1) {
                    StepView::Ask(action) => StepView::Ask(action),
                    StepView::Failed(inner) => StepView::Failed(
                        remove_error(worktree, why) + ": "@ + inner,
                    ),
                    StepView::Done((), used) => if h.len() <= used {
                        StepView::Ask(ask_prune(repo))
                    } else {
                        unbranching(repo, worktree, h, used + 1)
                    },
                }
            },
            None => match clearing(repo, worktree, around, h, at + 1) {
                StepView::Ask(action) => StepView::Ask(action),
                StepView::Failed(why) => StepView::Failed(why),
                StepView::Done((), used) => unbranching(repo, worktree, h, used),
            },
        }
    }
}

fn delete_branch(repo: &str, worktree_path: &str, answers: &Vec<Answer>, at: usize) -> (r: Step<()>)
    requires
        at <= answers.len(),
    ensures
        r@ == unbranching(repo@, worktree_path@, steps::history(answers@), at as int),
{
    match branch_from_worktree(worktree_path) {
        Some(branch) => if answers.len() <= at {
            let args = ["branch", "-D", branch.as_str()];
            assert(text::slices(args@) =~= seq!["branch"@, "-D"@, branch@]);
            Step::Ask(run_git(repo, &args))
        } else {
            Step::Done((), at + 1)
        },
        None => Step::Done((), at),
    }
}

/// Remove a worktree and its branch.
pub fn remove_worktree_and_branch(
    repo: &str,
    worktree_path: &str,
    around: &Surroundings,
    answers: &Vec<Answer>,
    at: usize,
) -> (r: Step<()>)
    ensures
        r@ == removing(repo@, worktree_path@, around@, steps::history(answers@), at as int),
{
    if answers.len() <= at {
        let args = ["worktree", "remove", "--force", worktree_path];
        assert(text::slices(args@) =~= seq![
            "worktree"@,
            "remove"@,
            "--force"@,
            worktree_path@,
        ]);
        return Step::Ask(run_git(repo, &args));
    }
    let reply: Reply = answers[at].reply();
    match remove_complaint(&reply) {
        Some(why) => {
            let error: String = remove_error_text(worktree_path, why.as_str());
            if text::contains(why.as_str(), WORKTREE_LOCKED) {
                return Step::Failed(error);
            }
            match delete_leftover_worktree_dir(repo, worktree_path, around, answers, at + 1) {
                Step::Ask(action) => Step::Ask(action),
                Step::Failed(inner) => Step::Failed(error.concat(": ").concat(inner.as_str())),
                Step::Done(_, used) => if answers.len() <= used {
                    let args = ["worktree", "prune"];
                    assert(text::slices(args@) =~= seq!["worktree"@, "prune"@]);
                    Step::Ask(run_git(repo, &args))
                } else {
                    delete_branch(repo, worktree_path, answers, used + 1)
                },
            }
        },
        None => match delete_leftover_worktree_dir(repo, worktree_path, around, answers, at + 1) {
            Step::Ask(action) => Step::Ask(action),
            Step::Failed(why) => Step::Failed(why),
            Step::Done(_, used) => delete_branch(repo, worktree_path, answers, used),
        },
    }
}

/// A teardown that failed, and whether a worktree is left because of it.
#[derive(Clone, Debug, PartialEq, Eq)]
pub struct TeardownFailure {
    /// The worktree that the task had, if it had one: it is still there.
    pub worktree_left: Option<String>,
    pub error: String,
}

impl TeardownFailure {
    /// The failure as a log shows it.
    pub fn to_message(&self) -> (r: &str)
        ensures
            r@ == self.error@,
    {
        self.error.as_str()
    }
}

/// How far a teardown is.
#[derive(Clone, Debug, PartialEq, Eq)]
pub enum TeardownStep {
    /// It needs this done, and its answer, to go on.
    Ask(Action),
    /// What the task had is gone.
    Released,
    /// It failed.
    Stuck(TeardownFailure),
}

/// [`TeardownStep`] as values.
pub enum TeardownView {
    Ask(ActionView),
    Released,
    Stuck { worktree_left: Option<Seq<char>>, error: Seq<char> },
}

impl View for TeardownStep {
    type V = TeardownView;

    open spec fn view(&self) -> TeardownView {
        match self {
            TeardownStep::Ask(action) => TeardownView::Ask(action@),
            TeardownStep::Released => TeardownView::Released,
            TeardownStep::Stuck(failure) => TeardownView::Stuck {
                worktree_left: match failure.worktree_left {
                    Some(s) => Some(s@),
                    None => None,
                },
                error: failure.error@,
            },
        }
    }
}

/// The worktree's part of a teardown, by the answers from index `at` on.
pub open spec fn releasing(
    repo: Seq<char>,
    worktree: Option<Seq<char>>,
    around: SurroundingsView,
    h: Seq<AnswerView>,
    at: int,
) -> TeardownView {
    match worktree {
        None => TeardownView::Released,
        Some(worktree) => match removing(
            models::tilde_expanded(repo, around.home),
            worktree,
            around,
            h,
            at,
        ) {
            StepView::Ask(action) => TeardownView::Ask(action),
            StepView::Failed(error) => TeardownView::Stuck { worktree_left: Some(worktree), error },
            StepView::Done((), _) => TeardownView::Released,
        },
    }
}

/// A teardown, by the answers from index `at` on: the window, if there is one,
/// then the worktree, if there is one. A window that cannot be closed leaves the
/// worktree as it is.
pub open spec fn tearing_down(
    repo: Seq<char>,
    worktree: Option<Seq<char>>,
    window: Option<Seq<char>>,
    around: SurroundingsView,
    h: Seq<AnswerView>,
    at: int,
) -> TeardownView {
    match window {
        Some(window) => if h.len() <= at {
            TeardownView::Ask(ActionView::KillWindow(window))
        } else {
            match h[at].failure() {
                Some(why) => TeardownView::Stuck {
                    worktree_left: worktree,
                    error: "failed to kill tmux window during cleanup: "@ + why,
                },
                None => releasing(repo, worktree, around, h, at + 1),
            }
        },
        None => releasing(repo, worktree, around, h, at),
    }
}

/// An optional text, as a value.
pub open spec fn opt_slice(s: Option<&str>) -> Option<Seq<char>> {
    match s {
        Some(s) => Some(s@),
        None => None,
    }
}

fn release_worktree(
    repo_path: &str,
    worktree_path: Option<&str>,
    around: &Surroundings,
    answers: &Vec<Answer>,
    at: usize,
) -> (r: TeardownStep)
    ensures
        r@ == releasing(
            repo_path@,
            opt_slice(worktree_path),
            around@,
            steps::history(answers@),
            at as int,
        ),
{
    match worktree_path {
        None => TeardownStep::Released,
        Some(worktree) => {
            let repo: String = models::expand_tilde(repo_path, around.home.as_str());
            match remove_worktree_and_branch(repo.as_str(), worktree, around, answers, at) {
                Step::Ask(action) => TeardownStep::Ask(action),
                Step::Failed(error) => TeardownStep::Stuck(
                    TeardownFailure { worktree_left: Some(worktree.to_owned()), error },
                ),
                Step::Done(_, _) => TeardownStep::Released,
            }
        },
    }
}

/// Take a task's window, worktree and branch away, as far as it has them.
pub fn teardown_task(
    repo_path: &str,
    worktree_path: Option<&str>,
    tmux_window: Option<&str>,
    around: &Surroundings,
    answers: &Vec<Answer>,
    at: usize,
) -> (r: TeardownStep)
    ensures
        r@ == tearing_down(
            repo_path@,
            opt_slice(worktree_path),
            opt_slice(tmux_window),
            around@,
            steps::history(answers@),
            at as int,
        ),
{
    match tmux_window {
        Some(window) => {
            if answers.len() <= at {
                return TeardownStep::Ask(Action::KillWindow(window.to_owned()));
            }
            match answers[at].failure() {
                Some(why) => TeardownStep::Stuck(
                    TeardownFailure {
                        worktree_left: match worktree_path {
                            Some(worktree) => Some(worktree.to_owned()),
                            None => None,
                        },
                        error: "failed to kill tmux window during cleanup: ".to_owned().concat(
                            why.as_str(),
                        ),
                    },
                ),
                None => release_worktree(repo_path, worktree_path, around, answers, at + 1),
            }
        },
        None => release_worktree(repo_path, worktree_path, around, answers, at),
    }
}

/// Does the action delete something from disk?
pub open spec fn deletes(action: ActionView) -> bool {
    action is Unlink || action is RemoveTree
}

/// What a teardown deletes lies strictly inside the directory of the repository's
/// worktrees, as it is written and with every `..` resolved.
pub proof fn deletion_is_bounded(
    repo: Seq<char>,
    worktree: Option<Seq<char>>,
    window: Option<Seq<char>>,
    around: SurroundingsView,
    h: Seq<AnswerView>,
    at: int,
)
    ensures
        tearing_down(repo, worktree, window, around, h, at) matches TeardownView::Ask(action) ==> (
        deletes(action) ==> {
            let target = leftover_target(worktree->0, around);
            let root = leftover_root(models::tilde_expanded(repo, around.home), around);
            &&& worktree is Some
            &&& action == ActionView::Unlink(paths::shown(target)) || action
                == ActionView::RemoveTree(paths::shown(target))
            &&& may_delete(target, root)
        }),
{
}

/// The way from the directory of the worktrees to what a teardown deletes never
/// goes up.
pub proof fn deletion_never_climbs(
    repo: Seq<char>,
    worktree: Seq<char>,
    around: SurroundingsView,
    i: int,
)
    requires
        may_delete(leftover_target(worktree, around), leftover_root(repo, around)),
        paths::settled(leftover_root(repo, around)).names.len() <= i < paths::settled(
            leftover_target(worktree, around),
        ).names.len(),
    ensures
        paths::settled(leftover_target(worktree, around)).names[i] != ".."@,
{
    let target = paths::settled(leftover_target(worktree, around));
    let root = paths::settled(leftover_root(repo, around));
    lemma_root_ends_in_its_own_name(repo, around);
    reveal_strlit("..");
    reveal_strlit(".worktrees");
    assert(".."@.len() == 2 && WORKTREES_DIR@.len() == 10);
    let last = root.names.len() - 1;
    assert(target.names[last] == target.names.take(root.names.len() as int)[last]);
    paths::lemma_no_way_up_behind_a_name(leftover_target(worktree, around).names, last, i);
}

/// The directory of the worktrees is called what it is called, wherever the
/// repository is.
proof fn lemma_root_ends_in_its_own_name(repo: Seq<char>, around: SurroundingsView)
    ensures
        paths::lexical(worktrees_root_of(repo)).names.len() > 0,
        leftover_root(repo, around).names.len() > 0,
        leftover_root(repo, around).names.last() == WORKTREES_DIR@,
        paths::settled(leftover_root(repo, around)).names.len() > 0,
        paths::settled(leftover_root(repo, around)).names.last() == WORKTREES_DIR@,
{
    reveal_strlit(".worktrees");
    reveal_strlit(".");
    reveal_strlit("..");
    let name = WORKTREES_DIR@;
    assert(name.len() == 10 && "."@.len() == 1 && ".."@.len() == 2);
    assert(!name.contains('/'));
    let named = paths::lexical(worktrees_root_of(repo));
    if repo.len() == 0 {
        text::lemma_split_on_absent(name, '/');
        let pieces = seq![name];
        assert(pieces.drop_last() =~= Seq::empty());
        assert(paths::resolved(pieces.drop_last()) =~= Seq::empty());
        assert(paths::resolved(pieces) =~= seq![name]);
    } else {
        paths::lemma_lexical_joined(repo, name);
    }
    assert(named.names.last() == name);
    let names = leftover_root(repo, around).names;
    assert(names.last() == name);
    paths::lemma_resolved_concat_name(names.drop_last(), name);
    assert(names.drop_last().push(name) =~= names);
}

/// A worktree that is made below the directory of the worktrees can be deleted
/// again: it lies strictly inside, whatever the repository is called.
pub proof fn own_worktree_may_be_deleted(repo: Seq<char>, name: Seq<char>, around: SurroundingsView)
    requires
        paths::names_something(name),
        name != ".."@,
        !name.contains('/'),
        repo.len() > 0,
        models::tilde_expanded(paths::joined(worktrees_root_of(repo), name), around.home)
            == paths::joined(worktrees_root_of(repo), name),
    ensures
        may_delete(
            leftover_target(paths::joined(worktrees_root_of(repo), name), around),
            leftover_root(repo, around),
        ),
{
    let root = worktrees_root_of(repo);
    lemma_root_ends_in_its_own_name(repo, around);
    paths::lemma_lexical_joined(root, name);
    let target = leftover_target(paths::joined(root, name), around);
    let bound = leftover_root(repo, around);
    assert(target.names =~= bound.names.push(name));
    assert(target.names.take(bound.names.len() as int) =~= bound.names);
    paths::lemma_resolved_concat_name(bound.names, name);
    assert(paths::settled(target).names.take(paths::settled(bound).names.len() as int)
        =~= paths::settled(bound).names);
}

/// The index of the first answer about the worktree: behind the one about the
/// window, where there is one.
pub open spec fn behind_the_window(window: Option<Seq<char>>, at: int) -> int {
    if window is Some {
        at + 1
    } else {
        at
    }
}

/// The window goes first: nothing but the window is asked for before it is
/// closed, and where it cannot be closed nothing more is.
pub proof fn window_goes_first(
    repo: Seq<char>,
    worktree: Option<Seq<char>>,
    window: Seq<char>,
    around: SurroundingsView,
    h: Seq<AnswerView>,
    at: int,
)
    ensures
        h.len() <= at ==> tearing_down(repo, worktree, Some(window), around, h, at)
            == TeardownView::Ask(ActionView::KillWindow(window)),
        tearing_down(repo, worktree, Some(window), around, h, at) matches TeardownView::Ask(action)
            ==> action == ActionView::KillWindow(window) || (at < h.len() && h[at].failure()
            is None),
{
}

/// A lock is obeyed: once git says that the worktree is locked, nothing is asked
/// any more, and the worktree is reported as left.
pub proof fn lock_is_obeyed(
    repo: Seq<char>,
    worktree: Seq<char>,
    window: Option<Seq<char>>,
    around: SurroundingsView,
    h: Seq<AnswerView>,
    at: int,
)
    requires
        0 <= at,
        behind_the_window(window, at) < h.len(),
        remove_failure(h[behind_the_window(window, at)].reply()) is Some,
        text::has(
            remove_failure(h[behind_the_window(window, at)].reply())->0,
            WORKTREE_LOCKED@,
        ),
    ensures
        tearing_down(repo, Some(worktree), window, around, h, at) matches TeardownView::Stuck {
            worktree_left,
            ..
        } && worktree_left == Some(worktree),
{
}

/// A teardown that fails names the worktree that the task had, and no other.
pub proof fn failure_names_the_worktree(
    repo: Seq<char>,
    worktree: Option<Seq<char>>,
    window: Option<Seq<char>>,
    around: SurroundingsView,
    h: Seq<AnswerView>,
    at: int,
)
    ensures
        tearing_down(repo, worktree, window, around, h, at) matches TeardownView::Stuck {
            worktree_left,
            ..
        } ==> worktree_left == worktree,
{
}

/// A task without a worktree costs no git and no disk: its window is all that is
/// asked for, and without one nothing is.
pub proof fn without_a_worktree_only_the_window_goes(
    repo: Seq<char>,
    window: Option<Seq<char>>,
    around: SurroundingsView,
    h: Seq<AnswerView>,
    at: int,
)
    ensures
        tearing_down(repo, None, window, around, h, at) matches TeardownView::Ask(action) ==> window
            is Some && action == ActionView::KillWindow(window->0),
        window is None ==> tearing_down(repo, None, window, around, h, at) is Released,
{
}

/// Is nothing left at the worktree's path, by the answers from index `at` on? It
/// was found absent, or it was deleted.
pub open spec fn is_gone(
    repo: Seq<char>,
    worktree: Seq<char>,
    around: SurroundingsView,
    h: Seq<AnswerView>,
    at: int,
) -> bool {
    &&& at < h.len()
    &&& h[at] == AnswerView::Found(PathKind::Absent) || (at + 1 < h.len() && h[at + 1].failure()
        is None && may_delete(
        leftover_target(worktree, around),
        leftover_root(models::tilde_expanded(repo, around.home), around),
    ))
}

/// A worktree counts as released only where nothing is left at its path.
pub proof fn released_means_gone(
    repo: Seq<char>,
    worktree: Seq<char>,
    window: Option<Seq<char>>,
    around: SurroundingsView,
    h: Seq<AnswerView>,
    at: int,
)
    requires
        0 <= at,
        tearing_down(repo, Some(worktree), window, around, h, at) is Released,
    ensures
        is_gone(repo, worktree, around, h, behind_the_window(window, at) + 1),
{
}

/// The branch goes last: it is deleted only where nothing is left at the
/// worktree's path.
pub proof fn branch_goes_last(
    repo: Seq<char>,
    worktree: Seq<char>,
    window: Option<Seq<char>>,
    around: SurroundingsView,
    h: Seq<AnswerView>,
    at: int,
    branch: Seq<char>,
)
    requires
        0 <= at,
        tearing_down(repo, Some(worktree), window, around, h, at) == TeardownView::Ask(
            ask_delete_branch(models::tilde_expanded(repo, around.home), branch),
        ),
    ensures
        is_gone(repo, worktree, around, h, behind_the_window(window, at) + 1),
{
    let full = models::tilde_expanded(repo, around.home);
    let asked = ask_delete_branch(full, branch)->Run_0.args;
    assert(asked.len() == 5);
    assert(ask_remove(full, worktree)->Run_0.args.len() == 6);
    assert(ask_prune(full)->Run_0.args.len() == 4);
}

/// The git command with these arguments, in the repository.
pub open spec fn git_command(repo: Seq<char>, args: Seq<Seq<char>>) -> ActionView {
    ActionView::Run(
        process::CommandView {
            program: "git"@,
            args: seq!["-C"@, repo] + args,
            bounded: false,
            pause_millis: 0,
        },
    )
}

/// Did the command come back with exit code 0?
pub open spec fn went_well(answer: AnswerView) -> bool {
    answer matches AnswerView::Ran(ReplyView::Exited { code, .. }) && code == Some(0i32)
}

/// Did the command come back with another exit code, and without a word of a lock?
pub open spec fn went_wrong_without_a_lock(answer: AnswerView) -> bool {
    answer matches AnswerView::Ran(ReplyView::Exited { code, stderr, .. }) && code != Some(0i32)
        && !text::has(stderr, "locked working tree"@)
}

/// Has the window, where there is one, been closed?
pub open spec fn window_is_closed(window: Option<Seq<char>>, h: Seq<AnswerView>, at: int) -> bool {
    window is Some ==> at < h.len() && h[at].failure() is None
}

/// Once its window is closed, a worktree is removed by git by force, its path is looked at,
/// and where nothing is left there its branch, which is called as its directory is, is
/// deleted; then the task is released, whether there was such a branch or not. Where git
/// did not remove the worktree, git is made to forget it before the branch goes.
pub proof fn a_worktree_goes_before_its_branch(
    repo: Seq<char>,
    dir: Seq<char>,
    name: Seq<char>,
    window: Option<Seq<char>>,
    around: SurroundingsView,
    h: Seq<AnswerView>,
    at: int,
)
    requires
        0 <= at,
        paths::is_plain(name),
        window_is_closed(window, h, at),
    ensures
        ({
            let full = models::tilde_expanded(repo, around.home);
            let worktree = dir.push('/') + name;
            let b = behind_the_window(window, at);
            let step = tearing_down(repo, Some(worktree), window, around, h, at);
            &&& h.len() == b ==> step == TeardownView::Ask(
                git_command(full, seq!["worktree"@, "remove"@, "--force"@, worktree]),
            )
            &&& h.len() == b + 1 && (went_well(h[b]) || went_wrong_without_a_lock(h[b])) ==> (step
                matches TeardownView::Ask(action) && action is InspectLink)
            &&& h.len() > b + 1 && went_well(h[b]) && h[b + 1] == AnswerView::Found(
                PathKind::Absent,
            ) ==> if h.len() == b + 2 {
                step == TeardownView::Ask(git_command(full, seq!["branch"@, "-D"@, name]))
            } else {
                step is Released
            }
            &&& h.len() > b + 1 && went_wrong_without_a_lock(h[b]) && h[b + 1]
                == AnswerView::Found(PathKind::Absent) ==> if h.len() == b + 2 {
                step == TeardownView::Ask(git_command(full, seq!["worktree"@, "prune"@]))
            } else if h.len() == b + 3 {
                step == TeardownView::Ask(git_command(full, seq!["branch"@, "-D"@, name]))
            } else {
                step is Released
            }
        }),
{
    paths::the_last_name_is_behind_the_last_slash(dir, name);
}

/// Where git speaks of a lock anywhere in its complaint, the teardown stops, and the
/// worktree is left.
pub proof fn any_word_of_a_lock_stops_it(
    repo: Seq<char>,
    worktree: Seq<char>,
    window: Option<Seq<char>>,
    around: SurroundingsView,
    h: Seq<AnswerView>,
    at: int,
    before: Seq<char>,
    behind: Seq<char>,
)
    requires
        0 <= at,
        window_is_closed(window, h, at),
        behind_the_window(window, at) < h.len(),
        h[behind_the_window(window, at)] matches AnswerView::Ran(
            ReplyView::Exited { code, stderr, .. },
        ) && code != Some(0i32) && stderr == before + "locked working tree"@ + behind,
    ensures
        tearing_down(repo, Some(worktree), window, around, h, at) matches TeardownView::Stuck {
            worktree_left,
            ..
        } && worktree_left == Some(worktree),
{
    let lock = "locked working tree"@;
    let stderr = before + lock + behind;
    assert(stderr.subrange(before.len() as int, (before.len() + lock.len()) as int) =~= lock);
    assert(text::stands_at(stderr, before.len() as int, lock));
}

/// What is left of a worktree below its repository is deleted where it is, a link as a link
/// and everything else with all that is in it.
pub proof fn what_is_left_of_a_worktree_is_deleted(
    names: Seq<Seq<char>>,
    name: Seq<char>,
    around: SurroundingsView,
    h: Seq<AnswerView>,
)
    requires
        names.len() > 0,
        forall|i: int| 0 <= i < names.len() ==> paths::is_plain(#[trigger] names[i]),
        paths::is_plain(name),
        h.len() == 2,
        went_well(h[0]) || went_wrong_without_a_lock(h[0]),
    ensures
        ({
            let repo = paths::rooted(names);
            let worktree = repo + "/.worktrees/"@ + name;
            let step = tearing_down(repo, Some(worktree), None, around, h, 0);
            &&& tearing_down(repo, Some(worktree), None, around, h.take(1), 0)
                == TeardownView::Ask(ActionView::InspectLink(worktree))
            &&& h[1] == AnswerView::Found(PathKind::Link) ==> step == TeardownView::Ask(
                ActionView::Unlink(worktree),
            )
            &&& h[1] == AnswerView::Found(PathKind::Directory) || h[1] == AnswerView::Found(
                PathKind::Other,
            ) ==> step == TeardownView::Ask(ActionView::RemoveTree(worktree))
            &&& h[1] is Failed ==> step is Stuck
        }),
{
    reveal_strlit(".worktrees");
    reveal_strlit("/.worktrees/");
    reveal_strlit(".");
    reveal_strlit("..");
    let repo = paths::rooted(names);
    let worktree = repo + "/.worktrees/"@ + name;
    let dir = WORKTREES_DIR@;
    assert(dir.len() == 10 && "."@.len() == 1 && ".."@.len() == 2);
    assert(paths::is_plain(dir));
    let inside = names.push(dir);
    let all = inside.push(name);
    paths::a_name_lengthens_a_path(names, dir);
    paths::a_name_lengthens_a_path(inside, name);
    assert(worktree =~= repo + seq!['/'] + dir + seq!['/'] + name);
    assert(worktree == paths::rooted(all));
    paths::a_clean_path_is_as_it_is_written(inside);
    paths::a_clean_path_is_as_it_is_written(all);
    assert(repo[0] == '/' && worktree[0] == '/');
    models::a_tilde_is_the_home_directory(repo, repo, around.home);
    models::a_tilde_is_the_home_directory(repo, worktree, around.home);
    let target = leftover_target(worktree, around);
    let root = leftover_root(repo, around);
    assert(target.names == all && root.names == inside);
    paths::lemma_plain_is_settled(all);
    paths::lemma_plain_is_settled(inside);
    assert(all.take(inside.len() as int) =~= inside);
    assert(may_delete(target, root));
}

/// Nothing is ever deleted but behind the repository's own directory of worktrees,
/// whatever the task says where its worktree is.
pub proof fn deletion_stays_below_the_worktrees(
    names: Seq<Seq<char>>,
    worktree: Option<Seq<char>>,
    window: Option<Seq<char>>,
    around: SurroundingsView,
    h: Seq<AnswerView>,
    at: int,
    path: Seq<char>,
)
    requires
        names.len() > 0,
        forall|i: int| 0 <= i < names.len() ==> paths::is_plain(#[trigger] names[i]),
        ({
            let step = tearing_down(paths::rooted(names), worktree, window, around, h, at);
            step == TeardownView::Ask(ActionView::Unlink(path)) || step == TeardownView::Ask(
                ActionView::RemoveTree(path),
            )
        }),
    ensures
        (paths::rooted(names) + "/.worktrees/"@).is_prefix_of(path),
{
    reveal_strlit(".worktrees");
    reveal_strlit("/.worktrees/");
    reveal_strlit(".");
    reveal_strlit("..");
    let repo = paths::rooted(names);
    let dir = WORKTREES_DIR@;
    assert(dir.len() == 10 && "."@.len() == 1 && ".."@.len() == 2);
    assert(paths::is_plain(dir));
    let inside = names.push(dir);
    paths::a_name_lengthens_a_path(names, dir);
    paths::a_clean_path_is_as_it_is_written(inside);
    assert(repo[0] == '/');
    models::a_tilde_is_the_home_directory(repo, repo, around.home);
    deletion_is_bounded(repo, worktree, window, around, h, at);
    let target = leftover_target(worktree->0, around);
    let root = leftover_root(repo, around);
    paths::inside_means_behind_the_directory(target, root);
    assert(paths::shown(root).push('/') =~= repo + "/.worktrees/"@);
}

/// What is said where a worktree could not be taken away, word for word.
pub proof fn a_failed_teardown_is_told_in_these_words(
    target: PathView,
    root: PathView,
    worktree: Seq<char>,
    why: Seq<char>,
    code: Option<i32>,
    stdout: Seq<char>,
)
    ensures
        refusal(target, root) == "refusing to delete leftover worktree "@ + paths::shown(target)
            + ": it is not inside "@ + paths::shown(root),
        remove_error(worktree, why) == "git worktree remove failed for path "@ + worktree + ": "@
            + why,
        remove_failure(ReplyView::NotRun(why)) == Some(
            "failed to run git worktree remove: "@ + why,
        ),
        code != Some(0i32) ==> remove_failure(ReplyView::Exited { code, stdout, stderr: why })
            == Some(why),
        remove_failure(ReplyView::Exited { code: Some(0i32), stdout, stderr: why }) is None,
{
    text::four_parts_are_glued(
        "refusing to delete leftover worktree "@,
        paths::shown(target),
        ": it is not inside "@,
        paths::shown(root),
    );
    text::four_parts_are_glued("git worktree remove failed for path "@, worktree, ": "@, why);
}

/// What is said where the leftover of a worktree could not be looked at or deleted, word for
/// word; and what git complained of is said with it.
pub proof fn a_leftover_is_told_in_these_words(
    repo: Seq<char>,
    worktree: Seq<char>,
    around: SurroundingsView,
    h: Seq<AnswerView>,
    at: int,
    why: Seq<char>,
)
    requires
        0 <= at,
    ensures
        ({
            let step = clearing(repo, worktree, around, h, at);
            let named = paths::shown(
                paths::lexical(models::tilde_expanded(worktree, around.home)),
            );
            let target = leftover_target(worktree, around);
            let root = leftover_root(repo, around);
            &&& at < h.len() && h[at] == AnswerView::Failed(why) ==> step == StepView::<
                (),
            >::Failed("failed to inspect leftover worktree "@ + named + ": "@ + why)
            &&& at < h.len() && h[at] == AnswerView::Found(PathKind::Directory) && !may_delete(
                target,
                root,
            ) ==> step == StepView::<()>::Failed(refusal(target, root))
            &&& at + 1 < h.len() && h[at] == AnswerView::Found(PathKind::Directory) && may_delete(
                target,
                root,
            ) && h[at + 1] == AnswerView::Failed(why) ==> step == StepView::<()>::Failed(
                "failed to delete leftover worktree "@ + paths::shown(target) + ": "@ + why,
            )
        }),
        h.len() == at + 2 && h[at + 1] == AnswerView::Failed(why) ==> (h[at] matches AnswerView::Ran(
            ReplyView::Exited { code, stderr, .. },
        ) ==> (code != Some(0i32) && !text::has(stderr, "locked working tree"@) ==> (removing(
            repo,
            worktree,
            around,
            h,
            at,
        ) matches StepView::Failed(told) && (remove_error(worktree, stderr) + ": "@).is_prefix_of(
            told,
        )))),
{
    let named = paths::shown(paths::lexical(models::tilde_expanded(worktree, around.home)));
    let target = paths::shown(leftover_target(worktree, around));
    text::four_parts_are_glued("failed to inspect leftover worktree "@, named, ": "@, why);
    text::four_parts_are_glued("failed to delete leftover worktree "@, target, ": "@, why);
    match removing(repo, worktree, around, h, at) {
        StepView::Failed(told) => {
            if at < h.len() && h[at] is Ran && h[at]->Ran_0 is Exited {
                let stderr = h[at]->Ran_0->stderr;
                let front = remove_error(worktree, stderr) + ": "@;
                match clearing(repo, worktree, around, h, at + 1) {
                    StepView::Failed(inner) => {
                        assert((front + inner).subrange(0, front.len() as int) =~= front);
                    },
                    _ => {},
                }
            }
        },
        _ => {},
    }
}

/// A window that could not be closed is told with why, and its worktree is left.
pub proof fn an_open_window_is_told_in_these_words(
    repo: Seq<char>,
    worktree: Option<Seq<char>>,
    window: Seq<char>,
    around: SurroundingsView,
    h: Seq<AnswerView>,
    at: int,
    why: Seq<char>,
)
    requires
        0 <= at < h.len(),
        h[at] == AnswerView::Failed(why),
    ensures
        tearing_down(repo, worktree, Some(window), around, h, at) == (TeardownView::Stuck {
            worktree_left: worktree,
            error: "failed to kill tmux window during cleanup: "@ + why,
        }),
{
}

/// A branch is deleted with one command, whatever comes of it; a path without a name at its
/// end has no branch, and costs none.
pub proof fn a_branch_costs_one_command(
    repo: Seq<char>,
    dir: Seq<char>,
    name: Seq<char>,
    h: Seq<AnswerView>,
    at: int,
)
    requires
        0 <= at,
        paths::is_plain(name),
    ensures
        h.len() == at ==> unbranching(repo, dir.push('/') + name, h, at) == StepView::<()>::Ask(
            git_command(repo, seq!["branch"@, "-D"@, name]),
        ),
        h.len() > at ==> unbranching(repo, dir.push('/') + name, h, at) == StepView::Done(
            (),
            at + 1,
        ),
        unbranching(repo, dir.push('/') + ".."@, h, at) == StepView::Done((), at),
{
    paths::the_last_name_is_behind_the_last_slash(dir, name);
}

} // verus!

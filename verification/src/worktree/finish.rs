//! Finishing a task: its branch is rebased onto the base branch, and the base
//! branch is moved up to it.

use vstd::prelude::*;

use crate::process::{Reply, ReplyView};
use crate::text;
use crate::worktree::start;
use crate::worktree::steps;
use crate::worktree::steps::{Action, ActionView, Answer, AnswerView};
use crate::worktree::teardown;

verus! {

/// Why a task could not be finished.
#[derive(Clone, Debug, PartialEq, Eq)]
pub enum FinishError {
    /// The repository has another branch checked out than the base branch.
    NotOnDefaultBranch { branch: String, expected: String },
    /// The repository has changes that are not committed.
    DirtyPrimaryWorktree { path: String, files: Vec<String> },
    /// The branch and the base branch changed the same lines.
    RebaseConflict { branch: String, files: Vec<String> },
    /// Anything else.
    Other(String),
}

/// [`FinishError`] as values.
#[verifier::ext_equal]
pub enum FinishErrorView {
    NotOnDefaultBranch { branch: Seq<char>, expected: Seq<char> },
    DirtyPrimaryWorktree { path: Seq<char>, files: Seq<Seq<char>> },
    RebaseConflict { branch: Seq<char>, files: Seq<Seq<char>> },
    Other(Seq<char>),
}

impl View for FinishError {
    type V = FinishErrorView;

    open spec fn view(&self) -> FinishErrorView {
        match self {
            FinishError::NotOnDefaultBranch { branch, expected } => FinishErrorView::NotOnDefaultBranch {
                branch: branch@,
                expected: expected@,
            },
            FinishError::DirtyPrimaryWorktree { path, files } => FinishErrorView::DirtyPrimaryWorktree {
                path: path@,
                files: text::texts(files@),
            },
            FinishError::RebaseConflict { branch, files } => FinishErrorView::RebaseConflict {
                branch: branch@,
                files: text::texts(files@),
            },
            FinishError::Other(why) => FinishErrorView::Other(why@),
        }
    }
}

/// The names one behind the other, each behind a comma but the first.
pub open spec fn listed(names: Seq<Seq<char>>) -> Seq<char>
    decreases names.len(),
{
    if names.len() == 0 {
        Seq::empty()
    } else if names.len() == 1 {
        names[0]
    } else {
        listed(names.drop_last()) + ", "@ + names.last()
    }
}

fn list(names: &Vec<String>) -> (r: String)
    ensures
        r@ == listed(text::texts(names@)),
{
    let ghost all = text::texts(names@);
    let mut r: String = String::new();
    let mut i: usize = 0;
    assert(all.take(0) =~= Seq::empty());
    while i < names.len()
        invariant
            i <= names.len(),
            all == text::texts(names@),
            r@ == listed(all.take(i as int)),
        decreases names.len() - i,
    {
        proof {
            assert(all.take(i + 1).drop_last() =~= all.take(i as int));
            assert(all.take(i + 1).last() == names@[i as int]@);
        }
        if i > 0 {
            r.append(", ");
        }
        r.append(names[i].as_str());
        proof {
            if i == 0 {
                assert(r@ =~= all.take(1)[0]);
            }
        }
        i += 1;
    }
    assert(all.take(i as int) =~= all);
    r
}

impl FinishErrorView {
    /// The error in words.
    pub open spec fn message(self) -> Seq<char> {
        match self {
            FinishErrorView::NotOnDefaultBranch { branch, expected } => "The repository is on "@ + branch
                + ", not on "@ + expected,
            FinishErrorView::DirtyPrimaryWorktree { path, files } => path
                + " has uncommitted changes: "@ + listed(files),
            FinishErrorView::RebaseConflict { branch, files } => "Rebasing "@ + branch
                + " met conflicts: "@ + listed(files),
            FinishErrorView::Other(why) => why,
        }
    }
}

impl FinishError {
    /// The error in words.
    pub fn to_message(&self) -> (r: String)
        ensures
            r@ == self@.message(),
    {
        match self {
            FinishError::NotOnDefaultBranch { branch, expected } => "The repository is on ".to_owned().concat(
                branch.as_str(),
            ).concat(", not on ").concat(expected.as_str()),
            FinishError::DirtyPrimaryWorktree { path, files } => {
                let names: String = list(files);
                path.clone().concat(" has uncommitted changes: ").concat(names.as_str())
            },
            FinishError::RebaseConflict { branch, files } => {
                let names: String = list(files);
                "Rebasing ".to_owned().concat(branch.as_str()).concat(" met conflicts: ").concat(
                    names.as_str(),
                )
            },
            FinishError::Other(why) => why.clone(),
        }
    }
}

/// How far finishing a task is.
#[derive(Clone, Debug, PartialEq, Eq)]
pub enum FinishStep {
    /// It needs this done, and its answer, to go on.
    Ask(Action),
    /// The base branch has the task's commits.
    Finished,
    /// It could not be done.
    Refused(FinishError),
}

/// [`FinishStep`] as values.
#[verifier::ext_equal]
pub enum FinishView {
    Ask(ActionView),
    Finished,
    Refused(FinishErrorView),
}

impl View for FinishStep {
    type V = FinishView;

    open spec fn view(&self) -> FinishView {
        match self {
            FinishStep::Ask(action) => FinishView::Ask(action@),
            FinishStep::Finished => FinishView::Finished,
            FinishStep::Refused(error) => FinishView::Refused(error@),
        }
    }
}

/// Ask which branch the repository has checked out.
pub open spec fn ask_branch(repo: Seq<char>) -> ActionView {
    start::bounded_git(repo, seq!["rev-parse"@, "--abbrev-ref"@, "HEAD"@], 0)
}

/// Ask for changes to tracked files that are not committed.
pub open spec fn ask_status(repo: Seq<char>) -> ActionView {
    start::bounded_git(repo, seq!["status"@, "--porcelain"@, "--untracked-files=no"@], 0)
}

/// Bring the base branch up to date with the remote one.
pub open spec fn ask_pull(repo: Seq<char>, base: Seq<char>) -> ActionView {
    start::bounded_git(repo, seq!["pull"@, "origin"@, base], 0)
}

/// Rebase the task's branch, in its worktree.
pub open spec fn ask_rebase(worktree: Seq<char>, base: Seq<char>) -> ActionView {
    start::bounded_git(worktree, seq!["rebase"@, base], 0)
}

/// Put the worktree back to where it was before the rebase.
pub open spec fn ask_abort(worktree: Seq<char>) -> ActionView {
    start::bounded_git(worktree, seq!["rebase"@, "--abort"@], 0)
}

/// Move the base branch up to the task's branch.
pub open spec fn ask_forward(repo: Seq<char>, branch: Seq<char>) -> ActionView {
    start::bounded_git(repo, seq!["merge"@, "--ff-only"@, branch], 0)
}

/// The branch that an answer to [`ask_branch`] names, or why it names none.
pub open spec fn head_branch(reply: ReplyView) -> Result<Seq<char>, Seq<char>> {
    match reply {
        ReplyView::Exited { code, stdout, .. } => if code == Some(0i32) {
            Ok(text::trim(stdout))
        } else {
            Err(reply.complaint())
        },
        ReplyView::NotRun(why) => Err(why),
    }
}

/// The files in lines that each have a state of three characters in front.
pub open spec fn changed_files(lines: Seq<Seq<char>>) -> Seq<Seq<char>>
    decreases lines.len(),
{
    if lines.len() == 0 {
        Seq::empty()
    } else {
        let before = changed_files(lines.drop_last());
        if lines.last().len() > 3 {
            before.push(lines.last().skip(3))
        } else {
            before
        }
    }
}

/// The files that an answer to [`ask_status`] names, or why it names none.
pub open spec fn dirty_files(reply: ReplyView) -> Result<Seq<Seq<char>>, Seq<char>> {
    match reply {
        ReplyView::Exited { code, stdout, .. } => if code == Some(0i32) {
            Ok(changed_files(text::lines(stdout)))
        } else {
            Err(reply.complaint())
        },
        ReplyView::NotRun(why) => Err(why),
    }
}

/// What git says in front of a file with a conflict.
pub const CONFLICT_IN: &'static str = "Merge conflict in ";

/// What stands behind the first `mark` of `s`, from index `i` on.
pub open spec fn behind(s: Seq<char>, mark: Seq<char>, i: int) -> Option<Seq<char>>
    decreases s.len() - i,
{
    if i < 0 || i >= s.len() {
        None
    } else if text::stands_at(s, i, mark) {
        Some(s.skip(i + mark.len()))
    } else {
        behind(s, mark, i + 1)
    }
}

/// The files that lines say have a conflict.
pub open spec fn conflict_files(lines: Seq<Seq<char>>) -> Seq<Seq<char>>
    decreases lines.len(),
{
    if lines.len() == 0 {
        Seq::empty()
    } else {
        let before = conflict_files(lines.drop_last());
        match behind(lines.last(), CONFLICT_IN@, 0) {
            Some(file) => before.push(file),
            None => before,
        }
    }
}

/// The files with a conflict, by the answer to a rebase.
pub open spec fn conflicts(reply: ReplyView) -> Seq<Seq<char>> {
    match reply {
        ReplyView::Exited { stdout, stderr, .. } => conflict_files(text::lines(stdout))
            + conflict_files(text::lines(stderr)),
        ReplyView::NotRun(_) => Seq::empty(),
    }
}

/// Moving the base branch up, by the answers from index `at` on. The window is
/// closed then; one that cannot be closed is left.
pub open spec fn forwarding(
    repo: Seq<char>,
    branch: Seq<char>,
    window: Option<Seq<char>>,
    h: Seq<AnswerView>,
    at: int,
) -> FinishView {
    if h.len() <= at {
        FinishView::Ask(ask_forward(repo, branch))
    } else if !h[at].reply().succeeded() {
        FinishView::Refused(
            FinishErrorView::Other("Fast-forward failed: "@ + h[at].reply().complaint()),
        )
    } else {
        match window {
            Some(window) => if h.len() <= at + 1 {
                FinishView::Ask(ActionView::KillWindow(window))
            } else {
                FinishView::Finished
            },
            None => FinishView::Finished,
        }
    }
}

/// Rebasing and what comes after it, by the answers from index `at` on. A rebase
/// that fails is taken back.
pub open spec fn rebasing(
    repo: Seq<char>,
    worktree: Seq<char>,
    branch: Seq<char>,
    base: Seq<char>,
    window: Option<Seq<char>>,
    h: Seq<AnswerView>,
    at: int,
) -> FinishView {
    if h.len() <= at {
        FinishView::Ask(ask_rebase(worktree, base))
    } else if h[at].reply().succeeded() {
        forwarding(repo, branch, window, h, at + 1)
    } else if h.len() <= at + 1 {
        FinishView::Ask(ask_abort(worktree))
    } else if conflicts(h[at].reply()).len() > 0 {
        FinishView::Refused(
            FinishErrorView::RebaseConflict { branch, files: conflicts(h[at].reply()) },
        )
    } else {
        FinishView::Refused(FinishErrorView::Other("Rebase failed: "@ + h[at].reply().complaint()))
    }
}

/// Finishing a task, by the answers so far. The repository has to be on the base
/// branch and without changes; where there is a remote, the base branch is brought
/// up to date first.
pub open spec fn finishing(
    repo: Seq<char>,
    worktree: Seq<char>,
    branch: Seq<char>,
    base: Seq<char>,
    window: Option<Seq<char>>,
    h: Seq<AnswerView>,
) -> FinishView {
    if h.len() == 0 {
        FinishView::Ask(ask_branch(repo))
    } else {
        match head_branch(h[0].reply()) {
            Err(why) => FinishView::Refused(
                FinishErrorView::Other("Failed to check current branch: "@ + why),
            ),
            Ok(current) => if current != base {
                FinishView::Refused(
                    FinishErrorView::NotOnDefaultBranch { branch: current, expected: base },
                )
            } else if h.len() == 1 {
                FinishView::Ask(ask_status(repo))
            } else {
                match dirty_files(h[1].reply()) {
                    Err(why) => FinishView::Refused(
                        FinishErrorView::Other("Failed to check for uncommitted changes: "@ + why),
                    ),
                    Ok(files) => if files.len() > 0 {
                        FinishView::Refused(
                            FinishErrorView::DirtyPrimaryWorktree { path: repo, files },
                        )
                    } else if h.len() == 2 {
                        FinishView::Ask(start::ask_remote(repo))
                    } else if !h[2].reply().succeeded() {
                        rebasing(repo, worktree, branch, base, window, h, 3)
                    } else if h.len() == 3 {
                        FinishView::Ask(ask_pull(repo, base))
                    } else if !h[3].reply().succeeded() {
                        FinishView::Refused(
                            FinishErrorView::Other(
                                "Failed to pull "@ + base + ": "@ + h[3].reply().complaint(),
                            ),
                        )
                    } else {
                        rebasing(repo, worktree, branch, base, window, h, 4)
                    },
                }
            },
        }
    }
}

fn git(repo: &str, args: &[&str]) -> (r: FinishStep)
    ensures
        r@ == FinishView::Ask(start::bounded_git(repo@, text::slices(args@), 0)),
{
    FinishStep::Ask(start::run_bounded(repo, args, 0))
}

fn other(before: &str, why: &str) -> (r: FinishStep)
    ensures
        r@ == FinishView::Refused(FinishErrorView::Other(before@ + why@)),
{
    FinishStep::Refused(FinishError::Other(before.to_owned().concat(why)))
}

fn read_head(reply: &Reply) -> (r: Result<String, String>)
    ensures
        match (r, head_branch(reply@)) {
            (Ok(s), Ok(branch)) => s@ == branch,
            (Err(s), Err(why)) => s@ == why,
            _ => false,
        },
{
    if !reply.success() {
        return Err(reply.complaint().to_owned());
    }
    match reply {
        Reply::Exited { stdout, .. } => Ok(text::trimmed(stdout.as_str())),
        Reply::NotRun(why) => Err(why.clone()),
    }
}

fn read_changed(stdout: &str) -> (r: Vec<String>)
    ensures
        text::texts(r@) == changed_files(text::lines(stdout@)),
{
    let lines: Vec<String> = text::lines_of(stdout);
    let ghost all = text::lines(stdout@);
    let mut r: Vec<String> = Vec::new();
    let mut i: usize = 0;
    proof {
        assert(all.take(0) =~= Seq::empty());
        assert(text::texts(r@) =~= Seq::empty());
    }
    while i < lines.len()
        invariant
            i <= lines.len(),
            all == text::texts(lines@),
            text::texts(r@) == changed_files(all.take(i as int)),
        decreases lines.len() - i,
    {
        proof {
            assert(all.take(i + 1).drop_last() =~= all.take(i as int));
            assert(all.take(i + 1).last() == lines@[i as int]@);
        }
        let line = lines[i].as_str();
        let n: usize = line.unicode_len();
        if n > 3 {
            let file: String = line.substring_char(3, n).to_owned();
            proof {
                assert(file@ =~= line@.skip(3));
                text::lemma_texts_push(r@, file);
            }
            r.push(file);
        }
        i += 1;
    }
    assert(all.take(i as int) =~= all);
    r
}

fn read_dirty(reply: &Reply) -> (r: Result<Vec<String>, String>)
    ensures
        match (r, dirty_files(reply@)) {
            (Ok(v), Ok(files)) => text::texts(v@) == files,
            (Err(s), Err(why)) => s@ == why,
            _ => false,
        },
{
    if !reply.success() {
        return Err(reply.complaint().to_owned());
    }
    match reply {
        Reply::Exited { stdout, .. } => Ok(read_changed(stdout.as_str())),
        Reply::NotRun(why) => Err(why.clone()),
    }
}

fn find_behind(s: &str, mark: &str) -> (r: Option<String>)
    ensures
        match (r, behind(s@, mark@, 0)) {
            (Some(t), Some(rest)) => t@ == rest,
            (None, None) => true,
            _ => false,
        },
{
    let cs: Vec<char> = text::chars_of(s);
    let ms: Vec<char> = text::chars_of(mark);
    let mut i: usize = 0;
    while i < cs.len()
        invariant
            cs@ == s@,
            ms@ == mark@,
            i <= cs.len(),
            behind(s@, mark@, 0) == behind(s@, mark@, i as int),
        decreases cs.len() - i,
    {
        if text::matches_at(&cs, i, &ms) {
            let rest: String = s.substring_char(i + ms.len(), cs.len()).to_owned();
            assert(rest@ =~= s@.skip(i + mark@.len()));
            return Some(rest);
        }
        i += 1;
    }
    None
}

fn read_conflicts(output: &str) -> (r: Vec<String>)
    ensures
        text::texts(r@) == conflict_files(text::lines(output@)),
{
    let lines: Vec<String> = text::lines_of(output);
    let ghost all = text::lines(output@);
    let mut r: Vec<String> = Vec::new();
    let mut i: usize = 0;
    proof {
        assert(all.take(0) =~= Seq::empty());
        assert(text::texts(r@) =~= Seq::empty());
    }
    while i < lines.len()
        invariant
            i <= lines.len(),
            all == text::texts(lines@),
            text::texts(r@) == conflict_files(all.take(i as int)),
        decreases lines.len() - i,
    {
        proof {
            assert(all.take(i + 1).drop_last() =~= all.take(i as int));
            assert(all.take(i + 1).last() == lines@[i as int]@);
        }
        match find_behind(lines[i].as_str(), CONFLICT_IN) {
            Some(file) => {
                proof {
                    text::lemma_texts_push(r@, file);
                }
                r.push(file);
            },
            None => {},
        }
        i += 1;
    }
    assert(all.take(i as int) =~= all);
    r
}

fn conflicts_of(reply: &Reply) -> (r: Vec<String>)
    ensures
        text::texts(r@) == conflicts(reply@),
{
    match reply {
        Reply::Exited { stdout, stderr, .. } => {
            let mut r: Vec<String> = read_conflicts(stdout.as_str());
            let ghost first = r@;
            let mut more: Vec<String> = read_conflicts(stderr.as_str());
            let ghost second = more@;
            r.append(&mut more);
            assert(text::texts(r@) =~= text::texts(first) + text::texts(second));
            r
        },
        Reply::NotRun(_) => {
            let r: Vec<String> = Vec::new();
            assert(text::texts(r@) =~= Seq::empty());
            r
        },
    }
}

fn forward(repo: &str, branch: &str, window: Option<&str>, answers: &Vec<Answer>, at: usize) -> (r:
    FinishStep)
    ensures
        r@ == forwarding(
            repo@,
            branch@,
            teardown::opt_slice(window),
            steps::history(answers@),
            at as int,
        ),
{
    if answers.len() <= at {
        let args = ["merge", "--ff-only", branch];
        assert(text::slices(args@) =~= seq!["merge"@, "--ff-only"@, branch@]);
        return git(repo, &args);
    }
    let reply: Reply = answers[at].reply();
    if !reply.success() {
        return other("Fast-forward failed: ", reply.complaint());
    }
    match window {
        Some(window) => if answers.len() - 1 <= at {
            FinishStep::Ask(Action::KillWindow(window.to_owned()))
        } else {
            FinishStep::Finished
        },
        None => FinishStep::Finished,
    }
}

fn rebase(
    repo: &str,
    worktree: &str,
    branch: &str,
    base: &str,
    window: Option<&str>,
    answers: &Vec<Answer>,
    at: usize,
) -> (r: FinishStep)
    ensures
        r@ == rebasing(
            repo@,
            worktree@,
            branch@,
            base@,
            teardown::opt_slice(window),
            steps::history(answers@),
            at as int,
        ),
{
    if answers.len() <= at {
        let args = ["rebase", base];
        assert(text::slices(args@) =~= seq!["rebase"@, base@]);
        return git(worktree, &args);
    }
    let reply: Reply = answers[at].reply();
    if reply.success() {
        return forward(repo, branch, window, answers, at + 1);
    }
    if answers.len() - 1 <= at {
        let args = ["rebase", "--abort"];
        assert(text::slices(args@) =~= seq!["rebase"@, "--abort"@]);
        return git(worktree, &args);
    }
    let files: Vec<String> = conflicts_of(&reply);
    assert(text::texts(files@).len() == files@.len());
    if files.len() > 0 {
        FinishStep::Refused(FinishError::RebaseConflict { branch: branch.to_owned(), files })
    } else {
        other("Rebase failed: ", reply.complaint())
    }
}

/// Finish a task.
pub fn finish_task(
    repo_path: &str,
    worktree: &str,
    branch: &str,
    base_branch: &str,
    tmux_window: Option<&str>,
    answers: &Vec<Answer>,
) -> (r: FinishStep)
    ensures
        r@ == finishing(
            repo_path@,
            worktree@,
            branch@,
            base_branch@,
            teardown::opt_slice(tmux_window),
            steps::history(answers@),
        ),
{
    if answers.len() == 0 {
        let args = ["rev-parse", "--abbrev-ref", "HEAD"];
        assert(text::slices(args@) =~= seq!["rev-parse"@, "--abbrev-ref"@, "HEAD"@]);
        return git(repo_path, &args);
    }
    let current: String = match read_head(&answers[0].reply()) {
        Ok(current) => current,
        Err(why) => return other("Failed to check current branch: ", why.as_str()),
    };
    if !text::same(current.as_str(), base_branch) {
        return FinishStep::Refused(
            FinishError::NotOnDefaultBranch { branch: current, expected: base_branch.to_owned() },
        );
    }
    if answers.len() == 1 {
        let args = ["status", "--porcelain", "--untracked-files=no"];
        assert(text::slices(args@) =~= seq![
            "status"@,
            "--porcelain"@,
            "--untracked-files=no"@,
        ]);
        return git(repo_path, &args);
    }
    let files: Vec<String> = match read_dirty(&answers[1].reply()) {
        Ok(files) => files,
        Err(why) => return other("Failed to check for uncommitted changes: ", why.as_str()),
    };
    assert(text::texts(files@).len() == files@.len());
    if files.len() > 0 {
        return FinishStep::Refused(
            FinishError::DirtyPrimaryWorktree { path: repo_path.to_owned(), files },
        );
    }
    if answers.len() == 2 {
        let args = ["remote", "get-url", "origin"];
        assert(text::slices(args@) =~= seq!["remote"@, "get-url"@, "origin"@]);
        return git(repo_path, &args);
    }
    if !answers[2].reply().success() {
        return rebase(repo_path, worktree, branch, base_branch, tmux_window, answers, 3);
    }
    if answers.len() == 3 {
        let args = ["pull", "origin", base_branch];
        assert(text::slices(args@) =~= seq!["pull"@, "origin"@, base_branch@]);
        return git(repo_path, &args);
    }
    let pulled: Reply = answers[3].reply();
    if !pulled.success() {
        let before: String = "Failed to pull ".to_owned().concat(base_branch).concat(": ");
        return other(before.as_str(), pulled.complaint());
    }
    rebase(repo_path, worktree, branch, base_branch, tmux_window, answers, 4)
}

/// Neither the repository nor the worktree is changed before it is known that the
/// repository is on the base branch and has no changes: until then there are only
/// the two questions.
pub proof fn only_a_clean_base_is_built_on(
    repo: Seq<char>,
    worktree: Seq<char>,
    branch: Seq<char>,
    base: Seq<char>,
    window: Option<Seq<char>>,
    h: Seq<AnswerView>,
)
    requires
        finishing(repo, worktree, branch, base, window, h) is Ask,
    ensures
        finishing(repo, worktree, branch, base, window, h) == FinishView::Ask(ask_branch(repo))
            || finishing(repo, worktree, branch, base, window, h) == FinishView::Ask(
            ask_status(repo),
        ) || (h.len() >= 2 && head_branch(h[0].reply()) == Ok::<Seq<char>, Seq<char>>(base)
            && (dirty_files(h[1].reply()) matches Ok(files) && files.len() == 0)),
{
}

/// A conflict is reported only after the rebase was taken back.
pub proof fn failed_rebase_is_taken_back(
    repo: Seq<char>,
    worktree: Seq<char>,
    branch: Seq<char>,
    base: Seq<char>,
    window: Option<Seq<char>>,
    h: Seq<AnswerView>,
)
    requires
        finishing(repo, worktree, branch, base, window, h) matches FinishView::Refused(error)
            && error is RebaseConflict,
    ensures
        exists|k: int|
            0 <= k < h.len() && #[trigger] finishing(repo, worktree, branch, base, window, h.take(k))
                == FinishView::Ask(ask_abort(worktree)),
{
    let at: int = if h[2].reply().succeeded() {
        4
    } else {
        3
    };
    let g = h.take(at + 1);
    assert(g[0] == h[0] && g[1] == h[1] && g[2] == h[2]);
    assert(at == 4 ==> g[3] == h[3]);
    assert(g[at] == h[at]);
    assert(finishing(repo, worktree, branch, base, window, g) == FinishView::Ask(
        ask_abort(worktree),
    ));
}

proof fn lemma_changed_concat(line: Seq<char>, rest: Seq<Seq<char>>)
    ensures
        changed_files(seq![line] + rest) == (if line.len() > 3 {
            seq![line.skip(3)]
        } else {
            Seq::empty()
        }) + changed_files(rest),
    decreases rest.len(),
{
    let all = seq![line] + rest;
    if rest.len() == 0 {
        assert(all.drop_last() =~= Seq::empty());
        assert(all.last() == line);
        assert(changed_files(all.drop_last()) =~= Seq::empty());
        assert(changed_files(rest) =~= Seq::empty());
        assert(changed_files(all) =~= (if line.len() > 3 {
            seq![line.skip(3)]
        } else {
            Seq::empty()
        }) + changed_files(rest));
    } else {
        let before = rest.drop_last();
        lemma_changed_concat(line, before);
        assert(all.drop_last() =~= seq![line] + before);
        assert(all.last() == rest.last());
        assert(changed_files(all) =~= (if line.len() > 3 {
            seq![line.skip(3)]
        } else {
            Seq::empty()
        }) + changed_files(rest));
    }
}

/// Of what a status question that ended well wrote, each line names a file behind its two
/// state letters and a blank, whatever the letters are: staged, unstaged, removed, renamed
/// or in conflict, the file is counted as changed, in its order. Nothing written means
/// that nothing is changed.
pub proof fn every_state_of_a_file_counts(
    state: Seq<char>,
    file: Seq<char>,
    rest: Seq<char>,
    stderr: Seq<char>,
)
    requires
        state.len() == 3,
        file.len() > 0,
        !state.contains('\n'),
        !file.contains('\n'),
        file.last() != '\r',
    ensures
        ({
            let all = dirty_files(
                ReplyView::Exited {
                    code: Some(0i32),
                    stdout: (state + file).push('\n') + rest,
                    stderr,
                },
            );
            let others = dirty_files(
                ReplyView::Exited { code: Some(0i32), stdout: rest, stderr },
            );
            all is Ok && others is Ok && all->Ok_0 == seq![file] + others->Ok_0
        }),
        dirty_files(
            ReplyView::Exited { code: Some(0i32), stdout: Seq::empty(), stderr },
        ) == Ok::<Seq<Seq<char>>, Seq<char>>(Seq::empty()),
{
    let line = state + file;
    assert(!line.contains('\n')) by {
        assert forall|i: int| 0 <= i < line.len() implies line[i] != '\n' by {
            if i < 3 {
                assert(line[i] == state[i]);
            } else {
                assert(line[i] == file[i - 3]);
            }
        }
    }
    assert(line.last() == file.last());
    text::lines_end_with_a_newline(line, rest);
    lemma_changed_concat(line, text::lines(rest));
    assert(line.skip(3) =~= file);
    assert(changed_files(text::lines(Seq::<char>::empty())) =~= Seq::empty());
}

/// A status question that ended badly, or could not be asked, says nothing of the files:
/// it is an error, and so is one for the branch.
pub proof fn a_failed_question_is_no_answer(reply: ReplyView)
    requires
        !reply.succeeded(),
    ensures
        dirty_files(reply) == Err::<Seq<Seq<char>>, Seq<char>>(reply.complaint()),
        head_branch(reply) == Err::<Seq<char>, Seq<char>>(reply.complaint()),
{
}

/// The branch that the repository is on is what git wrote, without the white space round
/// it.
pub proof fn the_branch_is_what_git_wrote(
    front: Seq<char>,
    branch: Seq<char>,
    back: Seq<char>,
    stderr: Seq<char>,
)
    requires
        text::all_white(front),
        text::all_white(back),
        branch.len() > 0,
        text::no_white(branch),
    ensures
        head_branch(
            ReplyView::Exited { code: Some(0i32), stdout: front + branch + back, stderr },
        ) == Ok::<Seq<char>, Seq<char>>(branch),
{
    text::trimming_takes_the_white_space_round_it(front, branch, back);
}

/// A repository that is on another branch, or has a changed file, is refused, with the
/// branch or with the files; and then nothing more is asked.
pub proof fn a_changed_repository_is_refused(
    repo: Seq<char>,
    worktree: Seq<char>,
    branch: Seq<char>,
    base: Seq<char>,
    window: Option<Seq<char>>,
    h: Seq<AnswerView>,
)
    ensures
        h.len() == 0 ==> finishing(repo, worktree, branch, base, window, h) == FinishView::Ask(
            ask_branch(repo),
        ),
        h.len() >= 1 ==> (head_branch(h[0].reply()) matches Ok(current) ==> (current != base
            ==> finishing(repo, worktree, branch, base, window, h) == FinishView::Refused(
            FinishErrorView::NotOnDefaultBranch { branch: current, expected: base },
        ))),
        h.len() >= 1 && head_branch(h[0].reply()) is Err ==> (finishing(
            repo,
            worktree,
            branch,
            base,
            window,
            h,
        ) matches FinishView::Refused(error) && error is Other),
        h.len() == 1 && head_branch(h[0].reply()) == Ok::<Seq<char>, Seq<char>>(base) ==> finishing(
            repo,
            worktree,
            branch,
            base,
            window,
            h,
        ) == FinishView::Ask(ask_status(repo)),
        h.len() >= 2 && head_branch(h[0].reply()) == Ok::<Seq<char>, Seq<char>>(base) ==> {
            let step = finishing(repo, worktree, branch, base, window, h);
            &&& dirty_files(h[1].reply()) is Err ==> (step matches FinishView::Refused(error)
                && error is Other)
            &&& dirty_files(h[1].reply()) matches Ok(files) ==> (files.len() > 0 ==> step
                == FinishView::Refused(FinishErrorView::DirtyPrimaryWorktree { path: repo, files }))
        },
{
}

/// Where the repository is as it should be: without a remote the rebase comes next; with
/// one the base branch is pulled first, and a pull that fails stops everything. Then the
/// task's branch is rebased; where that succeeds the base branch is moved up to it, and
/// where it fails it is taken back. Only a base branch that was moved up counts as
/// finished, once the task's window, if it has one, was to be closed.
pub proof fn a_clean_repository_is_brought_up(
    repo: Seq<char>,
    worktree: Seq<char>,
    branch: Seq<char>,
    base: Seq<char>,
    window: Option<Seq<char>>,
    h: Seq<AnswerView>,
    at: int,
)
    requires
        h.len() >= 2,
        head_branch(h[0].reply()) == Ok::<Seq<char>, Seq<char>>(base),
        dirty_files(h[1].reply()) matches Ok(files) && files.len() == 0,
        at == (if h.len() > 2 && h[2].reply().succeeded() {
            4int
        } else {
            3int
        }),
    ensures
        ({
            let step = finishing(repo, worktree, branch, base, window, h);
            &&& h.len() == 2 ==> step == FinishView::Ask(start::ask_remote(repo))
            &&& h.len() == 3 && at == 4 ==> step == FinishView::Ask(ask_pull(repo, base))
            &&& h.len() >= 4 && at == 4 && !h[3].reply().succeeded() ==> (
            step matches FinishView::Refused(error) && error is Other)
            &&& (at == 3 && h.len() >= 3 || at == 4 && h.len() >= 4 && h[3].reply().succeeded())
                ==> {
                &&& h.len() == at ==> step == FinishView::Ask(ask_rebase(worktree, base))
                &&& h.len() == at + 1 && h[at].reply().succeeded() ==> step == FinishView::Ask(
                    ask_forward(repo, branch),
                )
                &&& h.len() == at + 1 && !h[at].reply().succeeded() ==> step == FinishView::Ask(
                    ask_abort(worktree),
                )
                &&& h.len() >= at + 2 && !h[at].reply().succeeded() ==> {
                    &&& conflicts(h[at].reply()).len() > 0 ==> step == FinishView::Refused(
                        FinishErrorView::RebaseConflict { branch, files: conflicts(h[at].reply()) },
                    )
                    &&& conflicts(h[at].reply()).len() == 0 ==> (step matches FinishView::Refused(
                        error,
                    ) && error is Other)
                }
                &&& h.len() >= at + 2 && h[at].reply().succeeded() && !h[at + 1].reply().succeeded()
                    ==> (step matches FinishView::Refused(error) && error is Other)
                &&& h.len() == at + 2 && h[at].reply().succeeded() && h[at + 1].reply().succeeded()
                    ==> step == (match window {
                    Some(window) => FinishView::Ask(ActionView::KillWindow(window)),
                    None => FinishView::Finished,
                })
                &&& h.len() >= at + 3 && h[at].reply().succeeded() && h[at + 1].reply().succeeded()
                    ==> step == FinishView::Finished
            }
        }),
{
}

/// A line that says so names the file with a conflict, behind the words; a line that does
/// not say so names none. The lines of both outputs count, in their order.
pub proof fn every_conflict_is_named(before: Seq<Seq<char>>, line: Seq<char>, i: int)
    ensures
        text::stands_at(line, i, "Merge conflict in "@) && (forall|j: int|
            0 <= j < i ==> !#[trigger] text::stands_at(line, j, "Merge conflict in "@))
            ==> conflict_files(before.push(line)) == conflict_files(before).push(
            line.skip(i + "Merge conflict in "@.len()),
        ),
        !text::has(line, "Merge conflict in "@) ==> conflict_files(before.push(line))
            == conflict_files(before),
        conflict_files(Seq::<Seq<char>>::empty()) == Seq::<Seq<char>>::empty(),
{
    reveal_strlit("Merge conflict in ");
    let mark = "Merge conflict in "@;
    assert(mark.len() == 18);
    assert(before.push(line).drop_last() =~= before);
    if text::stands_at(line, i, mark) && (forall|j: int|
        0 <= j < i ==> !#[trigger] text::stands_at(line, j, mark)) {
        lemma_behind(line, mark, 0, i);
    }
    if !text::has(line, mark) {
        lemma_nothing_behind(line, mark, 0);
    }
}

proof fn lemma_behind(s: Seq<char>, mark: Seq<char>, from: int, i: int)
    requires
        mark.len() > 0,
        0 <= from <= i,
        text::stands_at(s, i, mark),
        forall|j: int| from <= j < i ==> !#[trigger] text::stands_at(s, j, mark),
    ensures
        behind(s, mark, from) == Some(s.skip(i + mark.len())),
    decreases i - from,
{
    if from < i {
        assert(!text::stands_at(s, from, mark));
        lemma_behind(s, mark, from + 1, i);
    }
}

proof fn lemma_nothing_behind(s: Seq<char>, mark: Seq<char>, from: int)
    requires
        0 <= from,
        !text::has(s, mark),
    ensures
        behind(s, mark, from) is None,
    decreases s.len() - from,
{
    if from < s.len() {
        assert(!text::stands_at(s, from, mark));
        lemma_nothing_behind(s, mark, from + 1);
    }
}

/// The conflicts are those of both outputs of a rebase.
pub proof fn both_outputs_tell_of_conflicts(code: Option<i32>, stdout: Seq<char>, stderr: Seq<char>)
    ensures
        conflicts(ReplyView::Exited { code, stdout, stderr }) == conflict_files(text::lines(stdout))
            + conflict_files(text::lines(stderr)),
{
}

/// What is asked of git, word for word: the questions about the base branch in the
/// repository, the rebase in the worktree, and each bounded in time.
pub proof fn git_is_asked_in_these_words(
    repo: Seq<char>,
    worktree: Seq<char>,
    branch: Seq<char>,
    base: Seq<char>,
)
    ensures
        ask_branch(repo) == start::bounded_command(
            repo,
            seq!["rev-parse"@, "--abbrev-ref"@, "HEAD"@],
            0,
        ),
        ask_status(repo) == start::bounded_command(
            repo,
            seq!["status"@, "--porcelain"@, "--untracked-files=no"@],
            0,
        ),
        ask_pull(repo, base) == start::bounded_command(repo, seq!["pull"@, "origin"@, base], 0),
        ask_rebase(worktree, base) == start::bounded_command(worktree, seq!["rebase"@, base], 0),
        ask_abort(worktree) == start::bounded_command(worktree, seq!["rebase"@, "--abort"@], 0),
        ask_forward(repo, branch) == start::bounded_command(
            repo,
            seq!["merge"@, "--ff-only"@, branch],
            0,
        ),
{
}

/// A rebase that fails is taken back before anything is said of it, and one that succeeds
/// is followed by the base branch; the window goes last, and only where there is one.
pub proof fn a_rebase_is_taken_back_or_followed(
    repo: Seq<char>,
    worktree: Seq<char>,
    branch: Seq<char>,
    base: Seq<char>,
    window: Option<Seq<char>>,
    h: Seq<AnswerView>,
    at: int,
)
    requires
        0 <= at,
    ensures
        ({
            let step = rebasing(repo, worktree, branch, base, window, h, at);
            let well = at < h.len() && h[at].reply().succeeded();
            let forwarded = at + 1 < h.len() && h[at + 1].reply().succeeded();
            &&& h.len() == at ==> step == FinishView::Ask(ask_rebase(worktree, base))
            &&& h.len() == at + 1 && !well ==> step == FinishView::Ask(ask_abort(worktree))
            &&& h.len() > at + 1 && !well ==> step is Refused
            &&& h.len() == at + 1 && well ==> step == FinishView::Ask(ask_forward(repo, branch))
            &&& h.len() > at + 1 && well && !forwarded ==> step is Refused
            &&& h.len() > at + 1 && well && forwarded && window is None ==> step is Finished
            &&& h.len() == at + 2 && well && forwarded ==> (window matches Some(name) ==> step
                == FinishView::Ask(ActionView::KillWindow(name)))
            &&& h.len() > at + 2 && well && forwarded ==> step is Finished
        }),
{
}

/// Where there is a remote the base branch is brought up to date first, and where that
/// fails nothing is rebased; without a remote there is nothing to bring.
pub proof fn the_base_branch_is_brought_up_first(
    repo: Seq<char>,
    worktree: Seq<char>,
    branch: Seq<char>,
    base: Seq<char>,
    window: Option<Seq<char>>,
    h: Seq<AnswerView>,
)
    requires
        h.len() > 1,
        head_branch(h[0].reply()) == Ok::<Seq<char>, Seq<char>>(base),
        dirty_files(h[1].reply()) matches Ok(files) && files.len() == 0,
    ensures
        ({
            let step = finishing(repo, worktree, branch, base, window, h);
            &&& h.len() == 2 ==> step == FinishView::Ask(start::ask_remote(repo))
            &&& h.len() == 3 && h[2].reply().succeeded() ==> step == FinishView::Ask(
                ask_pull(repo, base),
            )
            &&& h.len() == 3 && !h[2].reply().succeeded() ==> step == FinishView::Ask(
                ask_rebase(worktree, base),
            )
            &&& h.len() > 3 && h[2].reply().succeeded() && !h[3].reply().succeeded() ==> step
                is Refused
            &&& h.len() == 4 && h[2].reply().succeeded() && h[3].reply().succeeded() ==> step
                == FinishView::Ask(ask_rebase(worktree, base))
        }),
{
}

/// Names are listed one behind the other with a comma and a space between them.
pub proof fn names_are_listed_with_commas(names: Seq<Seq<char>>, more: Seq<char>)
    ensures
        listed(Seq::<Seq<char>>::empty()).len() == 0,
        listed(seq![more]) == more,
        names.len() > 0 ==> listed(names.push(more)) == listed(names) + ", "@ + more,
{
    assert(names.push(more).drop_last() =~= names);
}

/// What is said of a task that could not be finished, word for word.
pub proof fn a_refusal_is_told_in_these_words(
    branch: Seq<char>,
    expected: Seq<char>,
    path: Seq<char>,
    files: Seq<Seq<char>>,
    why: Seq<char>,
)
    ensures
        (FinishErrorView::NotOnDefaultBranch { branch, expected }).message()
            == "The repository is on "@ + branch + ", not on "@ + expected,
        (FinishErrorView::DirtyPrimaryWorktree { path, files }).message() == path
            + " has uncommitted changes: "@ + listed(files),
        (FinishErrorView::RebaseConflict { branch, files }).message() == "Rebasing "@ + branch
            + " met conflicts: "@ + listed(files),
        FinishErrorView::Other(why).message() == why,
{
}

/// What git complained of is told with what it was asked for, whichever step it was.
pub proof fn a_complaint_of_git_is_told(
    repo: Seq<char>,
    worktree: Seq<char>,
    branch: Seq<char>,
    base: Seq<char>,
    window: Option<Seq<char>>,
    h: Seq<AnswerView>,
    at: int,
    code: Option<i32>,
    stdout: Seq<char>,
    stderr: Seq<char>,
)
    requires
        0 <= at < h.len(),
        code != Some(0i32),
        h[at] == AnswerView::Ran(ReplyView::Exited { code, stdout, stderr }),
    ensures
        forwarding(repo, branch, window, h, at) == FinishView::Refused(
            FinishErrorView::Other("Fast-forward failed: "@ + stderr),
        ),
        h.len() > at + 1 && conflicts(h[at].reply()).len() == 0 ==> rebasing(
            repo,
            worktree,
            branch,
            base,
            window,
            h,
            at,
        ) == FinishView::Refused(FinishErrorView::Other("Rebase failed: "@ + stderr)),
        h.len() > at + 1 && conflicts(h[at].reply()).len() > 0 ==> rebasing(
            repo,
            worktree,
            branch,
            base,
            window,
            h,
            at,
        ) == FinishView::Refused(
            FinishErrorView::RebaseConflict { branch, files: conflicts(h[at].reply()) },
        ),
        at == 3 && head_branch(h[0].reply()) == Ok::<Seq<char>, Seq<char>>(base) && (dirty_files(
            h[1].reply(),
        ) matches Ok(files) && files.len() == 0) && h[2].reply().succeeded() ==> finishing(
            repo,
            worktree,
            branch,
            base,
            window,
            h,
        ) == FinishView::Refused(
            FinishErrorView::Other("Failed to pull "@ + base + ": "@ + stderr),
        ),
{
}

} // verus!

//! Giving a task its worktree and its window.

use vstd::prelude::*;

use crate::models;
use crate::models::{Task, TaskId};
use crate::paths;
use crate::process::{Reply, ReplyView};
use crate::text;
use crate::worktree::start;
use crate::worktree::start::{BaseRef, BaseRefView, Resolved, ResolvedView, StartPoint, StartPointView};
use crate::worktree::steps;
use crate::worktree::steps::{Action, ActionView, Answer, AnswerView, PathKind, Step, StepView};
use crate::worktree::teardown;
use crate::worktree::teardown::{Surroundings, SurroundingsView, TeardownStep, TeardownView};

verus! {

/// The message for a repository's path that is no directory; `None` for one that
/// is.
pub open spec fn repo_refusal(expanded: Seq<char>, found: PathKind) -> Option<Seq<char>> {
    match found {
        PathKind::Directory => None,
        PathKind::Absent => Some("Directory does not exist: "@ + expanded),
        _ => Some("Not a directory: "@ + expanded),
    }
}

/// The repository's path with the home directory in place, where a directory was
/// found there.
pub fn validate_repo_path(path: &str, home: &str, found: PathKind) -> (r: Result<String, String>)
    ensures
        match repo_refusal(models::tilde_expanded(path@, home@), found) {
            None => r matches Ok(expanded) && expanded@ == models::tilde_expanded(path@, home@),
            Some(message) => r matches Err(error) && error@ == message,
        },
{
    let expanded: String = models::expand_tilde(path, home);
    match found {
        PathKind::Directory => Ok(expanded),
        PathKind::Absent => Err("Directory does not exist: ".to_owned().concat(expanded.as_str())),
        _ => Err("Not a directory: ".to_owned().concat(expanded.as_str())),
    }
}

/// The name of a task's worktree and of its branch.
pub open spec fn worktree_name_of(id: TaskId, title: Seq<char>) -> Seq<char> {
    text::decimal(id.0 as int) + "-"@ + text::slug(title)
}

/// Where a task's worktree is, below its repository.
pub open spec fn worktree_path_of(repo: Seq<char>, id: TaskId, title: Seq<char>) -> Seq<char> {
    paths::joined(teardown::worktrees_root_of(repo), worktree_name_of(id, title))
}

/// The name of a task's window.
pub open spec fn window_of(id: TaskId) -> Seq<char> {
    "task-"@ + text::decimal(id.0 as int)
}

/// The names and paths of a task's worktree.
#[derive(Clone, Debug, PartialEq, Eq)]
pub struct WorktreePaths {
    pub repo_path: String,
    pub worktree_name: String,
    pub worktree_path: String,
    pub tmux_window: String,
}

/// The names and paths of a task's worktree, in a repository whose path is known
/// to be good.
pub fn worktree_paths(task: &Task, repo_path: String) -> (r: WorktreePaths)
    ensures
        r.repo_path@ == repo_path@,
        r.worktree_name@ == worktree_name_of(task.id, task.title@),
        r.worktree_path@ == worktree_path_of(repo_path@, task.id, task.title@),
        r.tmux_window@ == window_of(task.id),
{
    let id: String = text::decimal_i64(task.id.0);
    let slug: String = text::slugify(task.title.as_str());
    let tmux_window: String = "task-".to_owned().concat(id.as_str());
    let worktree_name: String = id.concat("-").concat(slug.as_str());
    let root: String = teardown::worktrees_root(repo_path.as_str());
    let worktree_path: String = paths::join_path(root.as_str(), worktree_name.as_str());
    WorktreePaths { repo_path, worktree_name, worktree_path, tmux_window }
}

/// Can the worktree be used as it is, by the answers from index `at` on?
///
/// Where nothing is at its path it has to be made. Where something is, it has to
/// lead to a directory; anything else is refused, so that what is there is
/// neither worked in nor taken for one's own.
pub open spec fn reusing(path: Seq<char>, h: Seq<AnswerView>, at: int) -> StepView<bool> {
    if h.len() <= at {
        StepView::Ask(ActionView::InspectLink(path))
    } else {
        match h[at] {
            AnswerView::Found(PathKind::Absent) => StepView::Done(false, at + 1),
            AnswerView::Found(_) => if h.len() <= at + 1 {
                StepView::Ask(ActionView::InspectTarget(path))
            } else {
                match h[at + 1] {
                    AnswerView::Found(PathKind::Directory) => StepView::Done(true, at + 2),
                    AnswerView::Found(_) => StepView::Failed(
                        text::glued(
                            seq![
                                "refusing to dispatch into "@,
                                path,
                                ": something is already there, and it is not a directory"@,
                            ],
                        ),
                    ),
                    answer => StepView::Failed(
                        text::glued(
                            seq![
                                "refusing to dispatch into "@,
                                path,
                                ": it exists but cannot be resolved to a usable worktree directory: "@,
                                teardown::why_of(answer),
                            ],
                        ),
                    ),
                }
            },
            answer => StepView::Failed(
                text::glued(
                    seq![
                        "failed to inspect worktree path "@,
                        path,
                        ": "@,
                        teardown::why_of(answer),
                    ],
                ),
            ),
        }
    }
}

fn why_failed(answer: &Answer) -> (r: String)
    ensures
        r@ == teardown::why_of(answer@),
{
    match answer.failure() {
        Some(why) => why,
        None => String::new(),
    }
}

/// Can the worktree be used as it is?
pub fn worktree_is_reusable(path: &str, answers: &Vec<Answer>, at: usize) -> (r: Step<bool>)
    ensures
        r@ == reusing(path@, steps::history(answers@), at as int),
{
    if answers.len() <= at {
        return Step::Ask(Action::InspectLink(path.to_owned()));
    }
    match &answers[at] {
        Answer::Found(PathKind::Absent) => Step::Done(false, at + 1),
        Answer::Found(_) => {
            if answers.len() - 1 <= at {
                return Step::Ask(Action::InspectTarget(path.to_owned()));
            }
            match &answers[at + 1] {
                Answer::Found(PathKind::Directory) => Step::Done(true, at + 2),
                Answer::Found(_) => {
                    let parts = [
                        "refusing to dispatch into ",
                        path,
                        ": something is already there, and it is not a directory",
                    ];
                    assert(text::slices(parts@) =~= seq![
                        "refusing to dispatch into "@,
                        path@,
                        ": something is already there, and it is not a directory"@,
                    ]);
                    Step::Failed(text::glue(&parts))
                },
                answer => {
                    let why: String = why_failed(answer);
                    let parts = [
                        "refusing to dispatch into ",
                        path,
                        ": it exists but cannot be resolved to a usable worktree directory: ",
                        why.as_str(),
                    ];
                    assert(text::slices(parts@) =~= seq![
                        "refusing to dispatch into "@,
                        path@,
                        ": it exists but cannot be resolved to a usable worktree directory: "@,
                        why@,
                    ]);
                    Step::Failed(text::glue(&parts))
                },
            }
        },
        answer => {
            let why: String = why_failed(answer);
            let parts = ["failed to inspect worktree path ", path, ": ", why.as_str()];
            assert(text::slices(parts@) =~= seq![
                "failed to inspect worktree path "@,
                path@,
                ": "@,
                why@,
            ]);
            Step::Failed(text::glue(&parts))
        },
    }
}

/// A task's worktree and window.
#[derive(Clone, Debug, PartialEq, Eq)]
pub struct ProvisionResult {
    pub worktree_path: String,
    pub tmux_window: String,
    /// A remark for the agent, where the remote branch could not be made current.
    pub fetch_warning: Option<String>,
    /// The ref that the branch starts from; `None` where no base was given.
    pub start_point: Option<StartPoint>,
    /// Was the worktree there already?
    pub reused_worktree: bool,
}

/// [`ProvisionResult`] as values.
pub struct ProvisionView {
    pub worktree_path: Seq<char>,
    pub tmux_window: Seq<char>,
    pub fetch_warning: Option<Seq<char>>,
    pub start_point: Option<StartPointView>,
    pub reused_worktree: bool,
}

/// How far provisioning is.
#[derive(Clone, Debug, PartialEq, Eq)]
pub enum ProvisionStep {
    /// It needs this done, and its answer, to go on.
    Ask(Action),
    /// The task can start.
    Provisioned(ProvisionResult),
    /// It failed, and what it had made is taken back.
    Failed(String),
}

/// [`ProvisionStep`] as values.
pub enum ProvisionStepView {
    Ask(ActionView),
    Provisioned(ProvisionView),
    Failed(Seq<char>),
}

impl View for ProvisionStep {
    type V = ProvisionStepView;

    open spec fn view(&self) -> ProvisionStepView {
        match self {
            ProvisionStep::Ask(action) => ProvisionStepView::Ask(action@),
            ProvisionStep::Provisioned(result) => ProvisionStepView::Provisioned(
                ProvisionView {
                    worktree_path: result.worktree_path@,
                    tmux_window: result.tmux_window@,
                    fetch_warning: match result.fetch_warning {
                        Some(s) => Some(s@),
                        None => None,
                    },
                    start_point: match result.start_point {
                        Some(sp) => Some(sp@),
                        None => None,
                    },
                    reused_worktree: result.reused_worktree,
                },
            ),
            ProvisionStep::Failed(error) => ProvisionStepView::Failed(error@),
        }
    }
}

/// A task's place: its repository, its worktree there, and its window.
pub struct Place {
    pub repo: Seq<char>,
    pub name: Seq<char>,
    pub path: Seq<char>,
    pub window: Seq<char>,
}

/// The place of a task in a repository.
pub open spec fn place_of(repo: Seq<char>, id: TaskId, title: Seq<char>) -> Place {
    Place {
        repo,
        name: worktree_name_of(id, title),
        path: worktree_path_of(repo, id, title),
        window: window_of(id),
    }
}

/// Take back what was made, by the answers from index `at` on, and then fail. A
/// worktree that was there before is not taken back, nor is a window that was not
/// opened. What comes of the taking back does not matter: the error is the one
/// that led to it.
pub open spec fn taking_back(
    place: Place,
    window: Option<Seq<char>>,
    reused: bool,
    error: Seq<char>,
    around: SurroundingsView,
    h: Seq<AnswerView>,
    at: int,
) -> ProvisionStepView {
    let worktree = if reused {
        None
    } else {
        Some(place.path)
    };
    match teardown::tearing_down(place.repo, worktree, window, around, h, at) {
        TeardownView::Ask(action) => ProvisionStepView::Ask(action),
        _ => ProvisionStepView::Failed(error),
    }
}

/// Open the window and prepare it, by the answers from index `at` on.
pub open spec fn opening(
    place: Place,
    resolved: ResolvedView,
    reused: bool,
    around: SurroundingsView,
    h: Seq<AnswerView>,
    at: int,
) -> ProvisionStepView {
    if h.len() <= at {
        ProvisionStepView::Ask(
            ActionView::OpenWindow { window: place.window, dir: place.path },
        )
    } else if h[at].failure() is Some {
        taking_back(
            place,
            None,
            reused,
            "failed to create tmux window: "@ + h[at].failure()->0,
            around,
            h,
            at + 1,
        )
    } else if h.len() <= at + 1 {
        ProvisionStepView::Ask(
            ActionView::SetDispatchDir { window: place.window, dir: place.path },
        )
    } else if h[at + 1].failure() is Some {
        taking_back(
            place,
            Some(place.window),
            reused,
            "failed to set tmux window dispatch dir: "@ + h[at + 1].failure()->0,
            around,
            h,
            at + 2,
        )
    } else if h.len() <= at + 2 {
        ProvisionStepView::Ask(ActionView::EnsureSplitHook)
    } else if h[at + 2].failure() is Some {
        taking_back(
            place,
            Some(place.window),
            reused,
            "failed to ensure tmux split hook: "@ + h[at + 2].failure()->0,
            around,
            h,
            at + 3,
        )
    } else {
        ProvisionStepView::Provisioned(
            ProvisionView {
                worktree_path: place.path,
                tmux_window: place.window,
                fetch_warning: resolved.fetch_warning,
                start_point: resolved.start_point,
                reused_worktree: reused,
            },
        )
    }
}

/// Have git make a worktree, with a branch of its name, from a ref.
pub open spec fn ask_add(place: Place, start_point: Option<StartPointView>) -> ActionView {
    let args = seq!["worktree"@, "add"@, place.path, "-B"@, place.name];
    start::bounded_git(
        place.repo,
        match start_point {
            Some(sp) => args.push(sp.git_ref()),
            None => args,
        },
        0,
    )
}

/// Make a worktree, by the answers from index `at` on. First git is made to
/// forget worktrees that are gone, whose branches it would not give away; whether
/// that succeeds does not matter.
pub open spec fn making(
    place: Place,
    resolved: ResolvedView,
    around: SurroundingsView,
    h: Seq<AnswerView>,
    at: int,
) -> ProvisionStepView {
    if h.len() <= at {
        ProvisionStepView::Ask(ActionView::MakeDirs(teardown::worktrees_root_of(place.repo)))
    } else if h[at].failure() is Some {
        ProvisionStepView::Failed(
            "failed to create .worktrees directory: "@ + h[at].failure()->0,
        )
    } else if h.len() <= at + 1 {
        ProvisionStepView::Ask(start::bounded_git(place.repo, seq!["worktree"@, "prune"@], 0))
    } else if h.len() <= at + 2 {
        ProvisionStepView::Ask(ask_add(place, resolved.start_point))
    } else {
        match h[at + 2].reply() {
            ReplyView::NotRun(why) => ProvisionStepView::Failed(
                "failed to run git worktree add: "@ + why,
            ),
            ReplyView::Exited { code, stderr, .. } => if code != Some(0i32) {
                ProvisionStepView::Failed("git worktree add failed: "@ + stderr)
            } else {
                opening(place, resolved, false, around, h, at + 3)
            },
        }
    }
}

/// What stands at a path; what could not be looked at is as good as absent.
pub open spec fn kind_of(answer: AnswerView) -> PathKind {
    match answer {
        AnswerView::Found(kind) => kind,
        _ => PathKind::Absent,
    }
}

/// Provisioning, by the answers so far: the repository is looked at, then the
/// worktree's path; the ref to start from is settled; where the worktree is not
/// there it is made; and its window is opened.
pub open spec fn provisioning(
    id: TaskId,
    title: Seq<char>,
    repo_path: Seq<char>,
    base: Option<BaseRefView>,
    around: SurroundingsView,
    h: Seq<AnswerView>,
) -> ProvisionStepView {
    let repo = models::tilde_expanded(repo_path, around.home);
    let place = place_of(repo, id, title);
    if h.len() == 0 {
        ProvisionStepView::Ask(ActionView::InspectTarget(repo))
    } else {
        match repo_refusal(repo, kind_of(h[0])) {
            Some(error) => ProvisionStepView::Failed(error),
            None => match reusing(place.path, h, 1) {
                StepView::Ask(action) => ProvisionStepView::Ask(action),
                StepView::Failed(error) => ProvisionStepView::Failed(error),
                StepView::Done(reused, used) => match start::resolving(repo, base, reused, h, used) {
                    StepView::Ask(action) => ProvisionStepView::Ask(action),
                    StepView::Failed(error) => ProvisionStepView::Failed(error),
                    StepView::Done(resolved, used) => if reused {
                        opening(place, resolved, true, around, h, used)
                    } else {
                        making(place, resolved, around, h, used)
                    },
                },
            },
        }
    }
}

impl WorktreePaths {
    /// The place that these paths name.
    pub open spec fn place(self) -> Place {
        Place {
            repo: self.repo_path@,
            name: self.worktree_name@,
            path: self.worktree_path@,
            window: self.tmux_window@,
        }
    }
}

/// Take back what this attempt made, and then fail with `error`. A worktree that
/// was there before stays.
pub fn rollback_failed_provisioning(
    paths: &WorktreePaths,
    tmux_window: Option<&str>,
    reused_worktree: bool,
    error: String,
    around: &Surroundings,
    answers: &Vec<Answer>,
    at: usize,
) -> (r: ProvisionStep)
    ensures
        r@ == taking_back(
            paths.place(),
            teardown::opt_slice(tmux_window),
            reused_worktree,
            error@,
            around@,
            steps::history(answers@),
            at as int,
        ),
{
    let worktree: Option<&str> = if reused_worktree {
        None
    } else {
        Some(paths.worktree_path.as_str())
    };
    match teardown::teardown_task(
        paths.repo_path.as_str(),
        worktree,
        tmux_window,
        around,
        answers,
        at,
    ) {
        TeardownStep::Ask(action) => ProvisionStep::Ask(action),
        TeardownStep::Released => ProvisionStep::Failed(error),
        TeardownStep::Stuck(_) => ProvisionStep::Failed(error),
    }
}

fn open_window(
    paths: WorktreePaths,
    resolved: Resolved,
    reused_worktree: bool,
    around: &Surroundings,
    answers: &Vec<Answer>,
    at: usize,
) -> (r: ProvisionStep)
    ensures
        r@ == opening(
            paths.place(),
            resolved@,
            reused_worktree,
            around@,
            steps::history(answers@),
            at as int,
        ),
{
    if answers.len() <= at {
        return ProvisionStep::Ask(
            Action::OpenWindow { window: paths.tmux_window, dir: paths.worktree_path },
        );
    }
    if let Some(why) = answers[at].failure() {
        let error: String = "failed to create tmux window: ".to_owned().concat(why.as_str());
        return rollback_failed_provisioning(
            &paths,
            None,
            reused_worktree,
            error,
            around,
            answers,
            at + 1,
        );
    }
    if answers.len() - 1 <= at {
        return ProvisionStep::Ask(
            Action::SetDispatchDir { window: paths.tmux_window, dir: paths.worktree_path },
        );
    }
    if let Some(why) = answers[at + 1].failure() {
        let error: String = "failed to set tmux window dispatch dir: ".to_owned().concat(
            why.as_str(),
        );
        return rollback_failed_provisioning(
            &paths,
            Some(paths.tmux_window.as_str()),
            reused_worktree,
            error,
            around,
            answers,
            at + 2,
        );
    }
    if answers.len() - 2 <= at {
        return ProvisionStep::Ask(Action::EnsureSplitHook);
    }
    if let Some(why) = answers[at + 2].failure() {
        let error: String = "failed to ensure tmux split hook: ".to_owned().concat(why.as_str());
        return rollback_failed_provisioning(
            &paths,
            Some(paths.tmux_window.as_str()),
            reused_worktree,
            error,
            around,
            answers,
            at + 3,
        );
    }
    ProvisionStep::Provisioned(
        ProvisionResult {
            worktree_path: paths.worktree_path,
            tmux_window: paths.tmux_window,
            fetch_warning: resolved.fetch_warning,
            start_point: resolved.start_point,
            reused_worktree,
        },
    )
}

fn add_worktree(paths: &WorktreePaths, start_point: &Option<StartPoint>) -> (r: Action)
    ensures
        r@ == ask_add(
            paths.place(),
            match start_point {
                Some(sp) => Some(sp@),
                None => None,
            },
        ),
{
    match start_point {
        Some(sp) => {
            let start_ref: String = sp.git_ref();
            let args = [
                "worktree",
                "add",
                paths.worktree_path.as_str(),
                "-B",
                paths.worktree_name.as_str(),
                start_ref.as_str(),
            ];
            assert(text::slices(args@) =~= seq![
                "worktree"@,
                "add"@,
                paths.worktree_path@,
                "-B"@,
                paths.worktree_name@,
            ].push(start_ref@));
            start::run_bounded(paths.repo_path.as_str(), &args, 0)
        },
        None => {
            let args = [
                "worktree",
                "add",
                paths.worktree_path.as_str(),
                "-B",
                paths.worktree_name.as_str(),
            ];
            assert(text::slices(args@) =~= seq![
                "worktree"@,
                "add"@,
                paths.worktree_path@,
                "-B"@,
                paths.worktree_name@,
            ]);
            start::run_bounded(paths.repo_path.as_str(), &args, 0)
        },
    }
}

fn make_worktree(
    paths: WorktreePaths,
    resolved: Resolved,
    around: &Surroundings,
    answers: &Vec<Answer>,
    at: usize,
) -> (r: ProvisionStep)
    ensures
        r@ == making(paths.place(), resolved@, around@, steps::history(answers@), at as int),
{
    if answers.len() <= at {
        return ProvisionStep::Ask(
            Action::MakeDirs(teardown::worktrees_root(paths.repo_path.as_str())),
        );
    }
    if let Some(why) = answers[at].failure() {
        return ProvisionStep::Failed(
            "failed to create .worktrees directory: ".to_owned().concat(why.as_str()),
        );
    }
    if answers.len() - 1 <= at {
        let args = ["worktree", "prune"];
        assert(text::slices(args@) =~= seq!["worktree"@, "prune"@]);
        return ProvisionStep::Ask(start::run_bounded(paths.repo_path.as_str(), &args, 0));
    }
    if answers.len() - 2 <= at {
        return ProvisionStep::Ask(add_worktree(&paths, &resolved.start_point));
    }
    let reply: Reply = answers[at + 2].reply();
    match &reply {
        Reply::NotRun(why) => ProvisionStep::Failed(
            "failed to run git worktree add: ".to_owned().concat(why.as_str()),
        ),
        Reply::Exited { stderr, .. } => if reply.success() {
            open_window(paths, resolved, false, around, answers, at + 3)
        } else {
            ProvisionStep::Failed("git worktree add failed: ".to_owned().concat(stderr.as_str()))
        },
    }
}

/// Give a task its worktree and its window, or say why it cannot have them.
pub fn provision_worktree(
    task: &Task,
    base: &Option<BaseRef>,
    around: &Surroundings,
    answers: &Vec<Answer>,
) -> (r: ProvisionStep)
    ensures
        r@ == provisioning(
            task.id,
            task.title@,
            task.repo_path@,
            start::opt_base(*base),
            around@,
            steps::history(answers@),
        ),
{
    if answers.len() == 0 {
        return ProvisionStep::Ask(
            Action::InspectTarget(
                models::expand_tilde(task.repo_path.as_str(), around.home.as_str()),
            ),
        );
    }
    let kind: PathKind = match &answers[0] {
        Answer::Found(kind) => *kind,
        _ => PathKind::Absent,
    };
    let repo: String = match validate_repo_path(
        task.repo_path.as_str(),
        around.home.as_str(),
        kind,
    ) {
        Ok(repo) => repo,
        Err(error) => {
            return ProvisionStep::Failed(error);
        },
    };
    let paths: WorktreePaths = worktree_paths(task, repo);
    let (reused_worktree, used): (bool, usize) = match worktree_is_reusable(
        paths.worktree_path.as_str(),
        answers,
        1,
    ) {
        Step::Ask(action) => {
            return ProvisionStep::Ask(action);
        },
        Step::Failed(error) => {
            return ProvisionStep::Failed(error);
        },
        Step::Done(reused, used) => (reused, used),
    };
    match start::resolve_start_point(
        paths.repo_path.as_str(),
        base,
        reused_worktree,
        answers,
        used,
    ) {
        Step::Ask(action) => ProvisionStep::Ask(action),
        Step::Failed(error) => ProvisionStep::Failed(error),
        Step::Done(resolved, used) => if reused_worktree {
            open_window(paths, resolved, true, around, answers, used)
        } else {
            make_worktree(paths, resolved, around, answers, used)
        },
    }
}

/// Is the worktree there already, by the answers so far?
pub open spec fn found_in_place(
    id: TaskId,
    title: Seq<char>,
    repo_path: Seq<char>,
    around: SurroundingsView,
    h: Seq<AnswerView>,
) -> bool {
    let repo = models::tilde_expanded(repo_path, around.home);
    reusing(worktree_path_of(repo, id, title), h, 1) matches StepView::Done(reused, _) && reused
}

/// Does the action take a worktree or a branch away?
pub open spec fn takes_away(place: Place, action: ActionView) -> bool {
    ||| teardown::deletes(action)
    ||| action == teardown::ask_remove(place.repo, place.path)
    ||| exists|branch: Seq<char>| action == #[trigger] teardown::ask_delete_branch(
        place.repo,
        branch,
    )
}

/// A worktree that was there before the dispatch is never taken away by it,
/// whatever fails.
pub proof fn reused_worktree_is_never_removed(
    id: TaskId,
    title: Seq<char>,
    repo_path: Seq<char>,
    base: Option<BaseRefView>,
    around: SurroundingsView,
    h: Seq<AnswerView>,
)
    requires
        found_in_place(id, title, repo_path, around, h),
    ensures
        provisioning(id, title, repo_path, base, around, h) matches ProvisionStepView::Ask(action)
            ==> !takes_away(
            place_of(models::tilde_expanded(repo_path, around.home), id, title),
            action,
        ),
{
    let repo = models::tilde_expanded(repo_path, around.home);
    let place = place_of(repo, id, title);
    lemma_bounded_is_no_removal(place);
    match reusing(place.path, h, 1) {
        StepView::Done(reused, used) => {
            lemma_resolving_asks_bounded(repo, base, reused, h, used);
        },
        _ => {},
    }
}

proof fn lemma_bounded_is_no_removal(place: Place)
    ensures
        forall|args: Seq<Seq<char>>, pause: u64|
            !takes_away(place, #[trigger] start::bounded_git(place.repo, args, pause)),
{
}

proof fn lemma_resolving_asks_bounded(
    repo: Seq<char>,
    base: Option<BaseRefView>,
    reused: bool,
    h: Seq<AnswerView>,
    at: int,
)
    ensures
        start::resolving(repo, base, reused, h, at) matches StepView::Ask(action) ==> exists|
            args: Seq<Seq<char>>,
            pause: u64,
        |
            action == #[trigger] start::bounded_git(repo, args, pause),
{
    match base {
        Some(base) => {
            let why = h[at].reply().complaint();
            start::lemma_refetch_asks(repo, base.name(), h, at + 2, 2, why);
            start::lemma_refetch_asks(repo, base.name(), h, at + 3, 2, why);
        },
        None => {},
    }
}

/// Did this dispatch open its window, by the answers so far?
pub open spec fn window_opened(
    id: TaskId,
    title: Seq<char>,
    repo_path: Seq<char>,
    base: Option<BaseRefView>,
    around: SurroundingsView,
    h: Seq<AnswerView>,
) -> bool {
    let repo = models::tilde_expanded(repo_path, around.home);
    match reusing(worktree_path_of(repo, id, title), h, 1) {
        StepView::Done(reused, used) => match start::resolving(repo, base, reused, h, used) {
            StepView::Done(_, used) => {
                let asked = if reused {
                    used
                } else {
                    used + 3
                };
                asked < h.len() && h[asked].failure() is None
            },
            _ => false,
        },
        _ => false,
    }
}

/// A window that this dispatch did not open is never closed by it, whatever
/// fails: the live window of another attempt is left alone.
#[verifier::rlimit(40)]
pub proof fn window_of_another_is_never_closed(
    id: TaskId,
    title: Seq<char>,
    repo_path: Seq<char>,
    base: Option<BaseRefView>,
    around: SurroundingsView,
    h: Seq<AnswerView>,
)
    ensures
        provisioning(id, title, repo_path, base, around, h) matches ProvisionStepView::Ask(
            ActionView::KillWindow(window),
        ) ==> window == window_of(id) && window_opened(id, title, repo_path, base, around, h),
{
    let repo = models::tilde_expanded(repo_path, around.home);
    match reusing(worktree_path_of(repo, id, title), h, 1) {
        StepView::Done(reused, used) => {
            lemma_resolving_asks_bounded(repo, base, reused, h, used);
        },
        _ => {},
    }
}

/// Nothing is made on disk, and no window is opened, before the ref to start from
/// is settled: a dispatch that gives up before that leaves nothing behind.
pub proof fn nothing_is_made_before_the_start_point_is_settled(
    id: TaskId,
    title: Seq<char>,
    repo_path: Seq<char>,
    base: Option<BaseRefView>,
    around: SurroundingsView,
    h: Seq<AnswerView>,
    reused: bool,
    used: int,
)
    requires
        h.len() > 0,
        repo_refusal(models::tilde_expanded(repo_path, around.home), kind_of(h[0])) is None,
        reusing(
            worktree_path_of(models::tilde_expanded(repo_path, around.home), id, title),
            h,
            1,
        ) == StepView::Done(reused, used),
        !(start::resolving(
            models::tilde_expanded(repo_path, around.home),
            base,
            reused,
            h,
            used,
        ) is Done),
    ensures
        provisioning(id, title, repo_path, base, around, h) matches ProvisionStepView::Ask(action)
            ==> action is Run,
        !(provisioning(id, title, repo_path, base, around, h) is Provisioned),
{
    let repo = models::tilde_expanded(repo_path, around.home);
    lemma_resolving_asks_bounded(repo, base, reused, h, used);
}

/// Provisioning keeps within its budget of commands: it asks for one that is
/// bounded in time only while fewer answers are in than that many and the three
/// about paths on disk.
pub proof fn provisioning_keeps_its_budget(
    id: TaskId,
    title: Seq<char>,
    repo_path: Seq<char>,
    base: Option<BaseRefView>,
    around: SurroundingsView,
    h: Seq<AnswerView>,
)
    ensures
        provisioning(id, title, repo_path, base, around, h) matches ProvisionStepView::Ask(action)
            ==> (action matches ActionView::Run(command) && command.bounded ==> h.len() < 3
            + start::PROVISION_MAX_SUBPROCESS_CALLS),
{
    let repo = models::tilde_expanded(repo_path, around.home);
    let place = place_of(repo, id, title);
    match reusing(place.path, h, 1) {
        StepView::Done(reused, used) => {
            start::start_point_is_settled_in_time(repo, base, reused, h, used);
        },
        _ => {},
    }
}

/// A task's worktree is its own: two tasks with different ids never share a path,
/// whatever their titles.
pub proof fn worktree_is_never_shared(
    repo: Seq<char>,
    a: TaskId,
    a_title: Seq<char>,
    b: TaskId,
    b_title: Seq<char>,
)
    requires
        worktree_path_of(repo, a, a_title) == worktree_path_of(repo, b, b_title),
    ensures
        a == b,
{
    let root = teardown::worktrees_root_of(repo);
    let x = worktree_name_of(a, a_title);
    let y = worktree_name_of(b, b_title);
    let p = paths::joined(root, x);
    let n = p.len() - x.len();
    assert(x.len() == y.len());
    assert(x =~= p.skip(n));
    assert(y =~= p.skip(n));
    reveal_strlit("-");
    let da = text::decimal(a.0 as int);
    let db = text::decimal(b.0 as int);
    text::lemma_decimal_shape(a.0 as int);
    text::lemma_decimal_shape(b.0 as int);
    assert(x[da.len() as int] == '-');
    assert(y[db.len() as int] == '-');
    assert(forall|i: int| 0 <= i < da.len() ==> x[i] == da[i]);
    assert(forall|i: int| 0 <= i < db.len() ==> y[i] == db[i]);
    if da.len() < db.len() {
        assert(db[da.len() as int] == '-');
        assert(!text::is_digit('-'));
        assert(da.len() == 0 || db[da.len() as int] == y[da.len() as int]);
        assert(false);
    }
    if db.len() < da.len() {
        assert(da[db.len() as int] == '-');
        assert(!text::is_digit('-'));
        assert(false);
    }
    assert(da =~= db);
    text::lemma_decimal_injective(a.0 as int, b.0 as int);
}

/// What provisioning makes, a teardown may delete: the worktree's path lies
/// strictly inside the directory of the repository's worktrees.
pub proof fn own_worktree_can_be_torn_down(
    repo: Seq<char>,
    id: TaskId,
    title: Seq<char>,
    around: SurroundingsView,
)
    requires
        repo.len() > 0,
        repo[0] != '~',
    ensures
        teardown::may_delete(
            teardown::leftover_target(worktree_path_of(repo, id, title), around),
            teardown::leftover_root(repo, around),
        ),
{
    let name = worktree_name_of(id, title);
    reveal_strlit("-");
    reveal_strlit(".");
    reveal_strlit("..");
    reveal_strlit("~");
    reveal_strlit("~/");
    let d = text::decimal(id.0 as int);
    text::lemma_decimal_shape(id.0 as int);
    assert(name[d.len() as int] == '-');
    assert forall|i: int| 0 <= i < name.len() implies name[i] != '/' by {
        if i < d.len() {
            assert(name[i] == d[i]);
        } else if i > d.len() {
            assert(name[i] == text::slug(title)[i - d.len() - 1]);
            text::lemma_slug_chars(title, i - d.len() - 1);
        }
    }
    assert(name[0] == d[0]);
    assert("."@.len() == 1 && ".."@.len() == 2);
    assert(name != "."@ && name != ".."@) by {
        assert(name[0] == '-' || text::is_digit(name[0]));
        if name == "."@ {
            assert(name[0] == '.');
        }
        if name == ".."@ {
            assert(name[0] == '.');
        }
    }
    let path = worktree_path_of(repo, id, title);
    assert(path[0] == repo[0]);
    assert(models::tilde_expanded(path, around.home) == path) by {
        if path == "~"@ {
            assert(path[0] == '~');
        }
        if "~/"@.is_prefix_of(path) {
            assert(path.subrange(0, 2)[0] == "~/"@[0]);
        }
    }
    teardown::own_worktree_may_be_deleted(repo, name, around);
}

/// A task's worktree is below its repository, in the directory of the worktrees, and
/// called by the task's number and the slug of its title, as its branch is; its window is
/// called by the number.
pub proof fn a_task_has_its_own_place(repo: Seq<char>, id: TaskId, title: Seq<char>)
    requires
        repo.len() > 0,
        repo.last() != '/',
    ensures
        ({
            let place = place_of(repo, id, title);
            &&& place.repo == repo
            &&& place.name == text::decimal(id.0 as int) + seq!['-'] + text::slug(title)
            &&& place.path == repo + "/.worktrees/"@ + place.name
            &&& place.window == "task-"@ + text::decimal(id.0 as int)
        }),
{
    reveal_strlit("-");
    reveal_strlit(".worktrees");
    reveal_strlit("/.worktrees/");
    let place = place_of(repo, id, title);
    assert("-"@ =~= seq!['-']);
    let dir = ".worktrees"@;
    paths::a_name_is_behind_its_directory_and_a_slash(repo, dir);
    let root = repo + seq!['/'] + dir;
    assert(root.last() == dir.last());
    paths::a_name_is_behind_its_directory_and_a_slash(root, place.name);
    assert(root + seq!['/'] + place.name =~= repo + "/.worktrees/"@ + place.name);
}

/// Only a directory is taken for a repository, and one that is not is told from one that is
/// not there.
pub proof fn only_a_directory_is_a_repository(path: Seq<char>, found: PathKind)
    ensures
        repo_refusal(path, found) is None <==> found == PathKind::Directory,
        found == PathKind::Absent ==> repo_refusal(path, found) == Some(
            "Directory does not exist: "@ + path,
        ),
        found == PathKind::Link || found == PathKind::Other ==> repo_refusal(path, found) == Some(
            "Not a directory: "@ + path,
        ),
{
}

/// A worktree is used as it is exactly where its path leads to a directory, and made
/// exactly where nothing is there; anything else is refused.
pub proof fn only_a_directory_is_reused(path: Seq<char>, h: Seq<AnswerView>, at: int)
    requires
        0 <= at,
    ensures
        h.len() == at ==> reusing(path, h, at) == StepView::<bool>::Ask(
            ActionView::InspectLink(path),
        ),
        at < h.len() && h[at] == AnswerView::Found(PathKind::Absent) ==> reusing(path, h, at)
            == StepView::Done(false, at + 1),
        at < h.len() && !(h[at] is Found) ==> reusing(path, h, at) is Failed,
        h.len() == at + 1 && h[at] is Found && h[at] != AnswerView::Found(PathKind::Absent)
            ==> reusing(path, h, at) == StepView::<bool>::Ask(ActionView::InspectTarget(path)),
        h.len() > at + 1 && h[at] is Found && h[at] != AnswerView::Found(PathKind::Absent) ==> if h[at
            + 1] == AnswerView::Found(PathKind::Directory) {
            reusing(path, h, at) == StepView::Done(true, at + 2)
        } else {
            reusing(path, h, at) is Failed
        },
{
}

/// A worktree is made by git, with a branch of its name and from the settled ref, once its
/// directory's directory is there and git has forgotten the worktrees that are gone; where
/// git does not make it, nothing more is done.
pub proof fn a_worktree_is_made_by_git(
    place: Place,
    resolved: ResolvedView,
    around: SurroundingsView,
    h: Seq<AnswerView>,
    at: int,
)
    requires
        0 <= at,
    ensures
        ({
            let step = making(place, resolved, around, h, at);
            let add = seq!["worktree"@, "add"@, place.path, "-B"@, place.name];
            &&& h.len() == at ==> step == ProvisionStepView::Ask(
                ActionView::MakeDirs(teardown::worktrees_root_of(place.repo)),
            )
            &&& h.len() > at && h[at].failure() is Some ==> step is Failed
            &&& h.len() == at + 1 && h[at].failure() is None ==> step == ProvisionStepView::Ask(
                start::bounded_command(place.repo, seq!["worktree"@, "prune"@], 0),
            )
            &&& h.len() == at + 2 && h[at].failure() is None ==> step == ProvisionStepView::Ask(
                start::bounded_command(
                    place.repo,
                    match resolved.start_point {
                        Some(sp) => add.push(sp.git_ref()),
                        None => add,
                    },
                    0,
                ),
            )
            &&& h.len() > at + 2 && h[at].failure() is None && !teardown::went_well(h[at + 2])
                ==> step is Failed
            &&& h.len() == at + 3 && h[at].failure() is None && teardown::went_well(h[at + 2])
                ==> step == ProvisionStepView::Ask(
                ActionView::OpenWindow { window: place.window, dir: place.path },
            )
        }),
{
}

/// A window is opened in the worktree and told of it. Where that fails, a worktree that was
/// made for it is taken back, behind the window, where that is open; one that was there
/// before is not.
pub proof fn a_window_that_fails_gives_the_worktree_back(
    place: Place,
    resolved: ResolvedView,
    reused: bool,
    around: SurroundingsView,
    h: Seq<AnswerView>,
    at: int,
)
    requires
        0 <= at,
    ensures
        ({
            let step = opening(place, resolved, reused, around, h, at);
            let full = models::tilde_expanded(place.repo, around.home);
            &&& h.len() == at ==> step == ProvisionStepView::Ask(
                ActionView::OpenWindow { window: place.window, dir: place.path },
            )
            &&& h.len() == at + 1 && h[at].failure() is None ==> step == ProvisionStepView::Ask(
                ActionView::SetDispatchDir { window: place.window, dir: place.path },
            )
            &&& h.len() == at + 2 && h[at].failure() is None && h[at + 1].failure() is None
                ==> step == ProvisionStepView::Ask(ActionView::EnsureSplitHook)
            &&& h.len() == at + 1 && (h[at].failure() matches Some(why) && !reused) ==> step
                == ProvisionStepView::Ask(
                teardown::git_command(
                    full,
                    seq!["worktree"@, "remove"@, "--force"@, place.path],
                ),
            )
            &&& h.len() == at + 1 && reused ==> (h[at].failure() matches Some(why) ==> step
                == ProvisionStepView::Failed("failed to create tmux window: "@ + why))
            &&& h.len() == at + 2 && h[at].failure() is None && h[at + 1].failure() is Some
                ==> step == ProvisionStepView::Ask(ActionView::KillWindow(place.window))
            &&& h.len() == at + 3 && h[at].failure() is None && h[at + 1].failure() is None && h[at
                + 2].failure() is Some ==> step == ProvisionStepView::Ask(
                ActionView::KillWindow(place.window),
            )
            &&& h.len() == at + 3 && h[at].failure() is None && h[at + 1].failure() is Some && h[at
                + 2].failure() is None && !reused ==> step == ProvisionStepView::Ask(
                teardown::git_command(
                    full,
                    seq!["worktree"@, "remove"@, "--force"@, place.path],
                ),
            )
            &&& h.len() == at + 3 && h[at].failure() is None && h[at + 1].failure() is None && h[at
                + 2].failure() is None ==> (step matches ProvisionStepView::Provisioned(result)
                && result.worktree_path == place.path && result.tmux_window == place.window
                && result.fetch_warning == resolved.fetch_warning && result.start_point
                == resolved.start_point && result.reused_worktree == reused)
        }),
{
}

/// A task is provisioned only in a repository that is a directory; its worktree counts as
/// reused exactly where something was at its path, and then that led to a directory.
pub proof fn provisioned_says_what_was_found(
    id: TaskId,
    title: Seq<char>,
    repo_path: Seq<char>,
    base: Option<BaseRefView>,
    around: SurroundingsView,
    h: Seq<AnswerView>,
)
    ensures
        provisioning(id, title, repo_path, base, around, h) matches ProvisionStepView::Provisioned(
            result,
        ) ==> {
            &&& h.len() > 1
            &&& h[0] == AnswerView::Found(PathKind::Directory)
            &&& result.reused_worktree <==> h[1] != AnswerView::Found(PathKind::Absent)
            &&& result.reused_worktree ==> h[2] == AnswerView::Found(PathKind::Directory)
            &&& result.tmux_window == window_of(id)
            &&& result.worktree_path == worktree_path_of(
                models::tilde_expanded(repo_path, around.home),
                id,
                title,
            )
        },
{
}

/// What git makes of a worktree that was there before is nothing: it is not made again.
pub proof fn a_worktree_that_is_there_is_not_made_again(
    id: TaskId,
    title: Seq<char>,
    repo_path: Seq<char>,
    base: Option<BaseRefView>,
    around: SurroundingsView,
    h: Seq<AnswerView>,
)
    requires
        h.len() > 2,
        h[1] is Found,
        h[1] != AnswerView::Found(PathKind::Absent),
    ensures
        !(provisioning(id, title, repo_path, base, around, h) matches ProvisionStepView::Ask(action)
            && action is MakeDirs),
{
    let repo = models::tilde_expanded(repo_path, around.home);
    match reusing(worktree_path_of(repo, id, title), h, 1) {
        StepView::Done(reused, used) => {
            lemma_resolving_asks_bounded(repo, base, reused, h, used);
        },
        _ => {},
    }
}

/// Provisioning looks at the repository first, and gives up, in these words, on one that is
/// not a directory.
pub proof fn the_repository_is_looked_at_first(
    id: TaskId,
    title: Seq<char>,
    repo_path: Seq<char>,
    base: Option<BaseRefView>,
    around: SurroundingsView,
    h: Seq<AnswerView>,
)
    ensures
        ({
            let repo = models::tilde_expanded(repo_path, around.home);
            let step = provisioning(id, title, repo_path, base, around, h);
            &&& h.len() == 0 ==> step == ProvisionStepView::Ask(ActionView::InspectTarget(repo))
            &&& h.len() > 0 && (h[0] == AnswerView::Found(PathKind::Absent) || !(h[0] is Found))
                ==> step == ProvisionStepView::Failed("Directory does not exist: "@ + repo)
            &&& h.len() > 0 && (h[0] == AnswerView::Found(PathKind::Link) || h[0]
                == AnswerView::Found(PathKind::Other)) ==> step == ProvisionStepView::Failed(
                "Not a directory: "@ + repo,
            )
            &&& h.len() == 1 && h[0] == AnswerView::Found(PathKind::Directory) ==> step
                == ProvisionStepView::Ask(
                ActionView::InspectLink(worktree_path_of(repo, id, title)),
            )
        }),
{
}

/// What is said where a worktree cannot be used or made, word for word.
pub proof fn a_failed_worktree_is_told_in_these_words(
    place: Place,
    resolved: ResolvedView,
    around: SurroundingsView,
    h: Seq<AnswerView>,
    at: int,
    why: Seq<char>,
)
    requires
        0 <= at,
    ensures
        h.len() > at && h[at] == AnswerView::Failed(why) ==> making(place, resolved, around, h, at)
            == ProvisionStepView::Failed("failed to create .worktrees directory: "@ + why),
        h.len() > at + 2 && h[at].failure() is None && h[at + 2] == AnswerView::Failed(why)
            ==> making(place, resolved, around, h, at) == ProvisionStepView::Failed(
            "failed to run git worktree add: "@ + why,
        ),
        h.len() > at + 2 && h[at].failure() is None ==> (h[at + 2] matches AnswerView::Ran(
            ReplyView::Exited { code, stderr, .. },
        ) ==> (code != Some(0i32) ==> making(place, resolved, around, h, at)
            == ProvisionStepView::Failed("git worktree add failed: "@ + stderr))),
        h.len() > at && h[at] == AnswerView::Failed(why) ==> reusing(place.path, h, at)
            == StepView::<bool>::Failed(
            "failed to inspect worktree path "@ + place.path + ": "@ + why,
        ),
        h.len() > at + 1 && h[at] == AnswerView::Found(PathKind::Link) && h[at + 1]
            == AnswerView::Failed(why) ==> reusing(place.path, h, at) == StepView::<bool>::Failed(
            "refusing to dispatch into "@ + place.path
                + ": it exists but cannot be resolved to a usable worktree directory: "@ + why,
        ),
        h.len() > at + 1 && h[at] == AnswerView::Found(PathKind::Other) && h[at + 1]
            == AnswerView::Found(PathKind::Other) ==> reusing(place.path, h, at) == StepView::<
            bool,
        >::Failed(
            "refusing to dispatch into "@ + place.path
                + ": something is already there, and it is not a directory"@,
        ),
{
    text::four_parts_are_glued("failed to inspect worktree path "@, place.path, ": "@, why);
    text::four_parts_are_glued(
        "refusing to dispatch into "@,
        place.path,
        ": it exists but cannot be resolved to a usable worktree directory: "@,
        why,
    );
    text::three_parts_are_glued(
        "refusing to dispatch into "@,
        place.path,
        ": something is already there, and it is not a directory"@,
    );
}

/// What is said where a window could not be opened or prepared, word for word, once there is
/// nothing to take back any more.
pub proof fn a_failed_window_is_told_in_these_words(
    place: Place,
    resolved: ResolvedView,
    around: SurroundingsView,
    h: Seq<AnswerView>,
    at: int,
    why: Seq<char>,
)
    requires
        0 <= at,
    ensures
        h.len() == at + 1 && h[at] == AnswerView::Failed(why) ==> opening(
            place,
            resolved,
            true,
            around,
            h,
            at,
        ) == ProvisionStepView::Failed("failed to create tmux window: "@ + why),
        h.len() == at + 3 && h[at].failure() is None && h[at + 1] == AnswerView::Failed(why)
            ==> opening(place, resolved, true, around, h, at) == ProvisionStepView::Failed(
            "failed to set tmux window dispatch dir: "@ + why,
        ),
        h.len() == at + 4 && h[at].failure() is None && h[at + 1].failure() is None && h[at + 2]
            == AnswerView::Failed(why) ==> opening(place, resolved, true, around, h, at)
            == ProvisionStepView::Failed("failed to ensure tmux split hook: "@ + why),
{
}

} // verus!

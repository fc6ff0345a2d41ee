//! Which ref a new worktree starts from.

use vstd::prelude::*;

use crate::git;
use crate::process;
use crate::process::{Command, CommandView, Reply, ReplyView};
use crate::text;
use crate::worktree::steps;
use crate::worktree::steps::{Action, ActionView, Answer, AnswerView, Step, StepView};

verus! {

/// How often a fetch is tried where the worktree depends on it.
pub const FETCH_MAX_ATTEMPTS: u32 = 3;

/// The most commands that provisioning a worktree takes before its window is
/// opened: the fetches, two questions about a failed one, one about the local
/// branch, one tidying up, and the one that makes the worktree.
pub const PROVISION_MAX_SUBPROCESS_CALLS: u32 = FETCH_MAX_ATTEMPTS + 5;

/// The wait before a fetch is tried again.
pub const FETCH_RETRY_DELAY_MILLIS: u64 = 500;

/// The exit code of `git ls-remote --exit-code` where no ref matches.
pub const LS_REMOTE_NO_MATCHING_REF: i32 = 2;

/// The ref that a worktree's branch is made from, and rebased onto later.
#[derive(Clone, Debug, PartialEq, Eq)]
pub enum StartPoint {
    /// The remote branch: it is at least as new as the local one.
    Remote { base: String },
    /// The local branch: it has commits that the remote one lacks, or there is no
    /// remote one.
    Local { base: String },
}

/// [`StartPoint`] as values.
pub enum StartPointView {
    Remote { base: Seq<char> },
    Local { base: Seq<char> },
}

impl View for StartPoint {
    type V = StartPointView;

    open spec fn view(&self) -> StartPointView {
        match self {
            StartPoint::Remote { base } => StartPointView::Remote { base: base@ },
            StartPoint::Local { base } => StartPointView::Local { base: base@ },
        }
    }
}

impl StartPointView {
    /// The branch's name without its remote.
    pub open spec fn base(self) -> Seq<char> {
        match self {
            StartPointView::Remote { base } => base,
            StartPointView::Local { base } => base,
        }
    }

    /// The ref as git takes it.
    pub open spec fn git_ref(self) -> Seq<char> {
        match self {
            StartPointView::Remote { base } => git::origin_name(base),
            StartPointView::Local { base } => base,
        }
    }
}

impl StartPoint {
    /// The ref as git takes it.
    pub fn git_ref(&self) -> (r: String)
        ensures
            r@ == self@.git_ref(),
    {
        match self {
            StartPoint::Remote { base } => git::origin_ref(base.as_str()),
            StartPoint::Local { base } => base.clone(),
        }
    }

    /// The branch's name without its remote.
    pub fn base(&self) -> (r: &str)
        ensures
            r@ == self@.base(),
    {
        match self {
            StartPoint::Remote { base } => base.as_str(),
            StartPoint::Local { base } => base.as_str(),
        }
    }
}

/// What a worktree is based on.
#[derive(Clone, Debug, PartialEq, Eq)]
pub enum BaseRef {
    /// The repository's base branch. The local one may be ahead of the remote one.
    Branch(String),
    /// The head branch of a pull request. Only the remote one will do: a review
    /// must see the request's code.
    PrHead(String),
}

/// [`BaseRef`] as values.
pub enum BaseRefView {
    Branch(Seq<char>),
    PrHead(Seq<char>),
}

impl View for BaseRef {
    type V = BaseRefView;

    open spec fn view(&self) -> BaseRefView {
        match self {
            BaseRef::Branch(name) => BaseRefView::Branch(name@),
            BaseRef::PrHead(name) => BaseRefView::PrHead(name@),
        }
    }
}

impl BaseRefView {
    /// The branch's name.
    pub open spec fn name(self) -> Seq<char> {
        match self {
            BaseRefView::Branch(name) => name,
            BaseRefView::PrHead(name) => name,
        }
    }
}

impl BaseRef {
    /// The branch's name.
    pub fn name(&self) -> (r: &str)
        ensures
            r@ == self@.name(),
    {
        match self {
            BaseRef::Branch(name) => name.as_str(),
            BaseRef::PrHead(name) => name.as_str(),
        }
    }
}

/// Does the worktree depend on the fetch?
#[derive(Clone, Copy, Debug, PartialEq, Eq, Structural)]
pub enum FetchPolicy {
    /// A worktree is about to be made from the ref: what cannot be fetched stops
    /// the dispatch.
    Required,
    /// The worktree is there already: one try, and a failure is a remark.
    BestEffort,
}

/// What came of a fetch.
#[derive(Clone, Debug, PartialEq, Eq)]
pub enum FetchOutcome {
    /// The remote branch is up to date here.
    Fetched,
    /// There is no remote branch; the remark for the agent.
    NoOriginRef(String),
    /// The remote could not be reached; the remark for the agent.
    Unreachable(String),
}

/// [`FetchOutcome`] as values.
pub enum FetchOutcomeView {
    Fetched,
    NoOriginRef(Seq<char>),
    Unreachable(Seq<char>),
}

impl View for FetchOutcome {
    type V = FetchOutcomeView;

    open spec fn view(&self) -> FetchOutcomeView {
        match self {
            FetchOutcome::Fetched => FetchOutcomeView::Fetched,
            FetchOutcome::NoOriginRef(remark) => FetchOutcomeView::NoOriginRef(remark@),
            FetchOutcome::Unreachable(remark) => FetchOutcomeView::Unreachable(remark@),
        }
    }
}

/// Why a fetch failed.
#[derive(Clone, Debug, PartialEq, Eq)]
pub enum FetchFailure {
    /// There is nothing to fetch; and what is missing.
    NoOriginRef(String),
    /// Anything else.
    Unreachable,
}

/// [`FetchFailure`] as values.
pub enum FetchFailureView {
    NoOriginRef(Seq<char>),
    Unreachable,
}

impl View for FetchFailure {
    type V = FetchFailureView;

    open spec fn view(&self) -> FetchFailureView {
        match self {
            FetchFailure::NoOriginRef(what) => FetchFailureView::NoOriginRef(what@),
            FetchFailure::Unreachable => FetchFailureView::Unreachable,
        }
    }
}

/// A git command that is stopped once it takes too long, after a wait.
pub open spec fn bounded_git(repo: Seq<char>, args: Seq<Seq<char>>, pause_millis: u64) -> ActionView {
    ActionView::Run(CommandView { bounded: true, pause_millis, ..process::git_in(repo, args) })
}

pub(crate) fn run_bounded(repo: &str, args: &[&str], pause_millis: u64) -> (r: Action)
    ensures
        r@ == bounded_git(repo@, text::slices(args@), pause_millis),
{
    let mut command: Command = process::git(repo, args);
    command.bounded = true;
    command.pause_millis = pause_millis;
    Action::Run(command)
}

/// Ask whether there is a remote at all.
pub open spec fn ask_remote(repo: Seq<char>) -> ActionView {
    bounded_git(repo, seq!["remote"@, "get-url"@, "origin"@], 0)
}

/// Ask whether the remote has a branch.
pub open spec fn ask_remote_branch(repo: Seq<char>, base: Seq<char>) -> ActionView {
    bounded_git(
        repo,
        seq!["ls-remote"@, "--exit-code"@, "origin"@, "refs/heads/"@ + base],
        0,
    )
}

/// Why a fetch failed, by the answers from index `at` on. Only a remote that is
/// known to be missing, or known to lack the branch, means that there is nothing
/// to fetch; what could not be found out counts as anything else.
pub open spec fn classified(repo: Seq<char>, base: Seq<char>, h: Seq<AnswerView>, at: int) -> StepView<
    FetchFailureView,
> {
    if h.len() <= at {
        StepView::Ask(ask_remote(repo))
    } else {
        match h[at].reply() {
            ReplyView::NotRun(_) => StepView::Done(FetchFailureView::Unreachable, at + 1),
            ReplyView::Exited { code, .. } => if code != Some(0i32) {
                StepView::Done(
                    FetchFailureView::NoOriginRef("no origin remote is configured"@),
                    at + 1,
                )
            } else if h.len() <= at + 1 {
                StepView::Ask(ask_remote_branch(repo, base))
            } else if h[at + 1].reply() matches ReplyView::Exited { code, .. } && code == Some(
                LS_REMOTE_NO_MATCHING_REF,
            ) {
                StepView::Done(
                    FetchFailureView::NoOriginRef("origin has no branch "@ + base),
                    at + 2,
                )
            } else {
                StepView::Done(FetchFailureView::Unreachable, at + 2)
            },
        }
    }
}

/// Find out why a fetch failed.
pub fn classify_fetch_failure(repo_path: &str, base: &str, answers: &Vec<Answer>, at: usize) -> (r:
    Step<FetchFailure>)
    ensures
        r@ == classified(repo_path@, base@, steps::history(answers@), at as int),
{
    if answers.len() <= at {
        let args = ["remote", "get-url", "origin"];
        assert(text::slices(args@) =~= seq!["remote"@, "get-url"@, "origin"@]);
        return Step::Ask(run_bounded(repo_path, &args, 0));
    }
    let found: bool = match answers[at].reply() {
        Reply::NotRun(_) => {
            return Step::Done(FetchFailure::Unreachable, at + 1);
        },
        Reply::Exited { code, .. } => match code {
            Some(code) => code == 0,
            None => false,
        },
    };
    if !found {
        return Step::Done(
            FetchFailure::NoOriginRef("no origin remote is configured".to_owned()),
            at + 1,
        );
    }
    if answers.len() - 1 <= at {
        let refspec: String = "refs/heads/".to_owned().concat(base);
        let args = ["ls-remote", "--exit-code", "origin", refspec.as_str()];
        assert(text::slices(args@) =~= seq![
            "ls-remote"@,
            "--exit-code"@,
            "origin"@,
            "refs/heads/"@ + base@,
        ]);
        return Step::Ask(run_bounded(repo_path, &args, 0));
    }
    let missing: bool = match answers[at + 1].reply() {
        Reply::NotRun(_) => false,
        Reply::Exited { code, .. } => match code {
            Some(code) => code == LS_REMOTE_NO_MATCHING_REF,
            None => false,
        },
    };
    if missing {
        Step::Done(
            FetchFailure::NoOriginRef("origin has no branch ".to_owned().concat(base)),
            at + 2,
        )
    } else {
        Step::Done(FetchFailure::Unreachable, at + 2)
    }
}

/// Fetch a branch, after a wait.
pub open spec fn ask_fetch(repo: Seq<char>, base: Seq<char>, pause_millis: u64) -> ActionView {
    bounded_git(repo, seq!["fetch"@, "origin"@, base], pause_millis)
}

/// The remark where there is no remote branch.
pub open spec fn no_origin_remark(base: Seq<char>, what: Seq<char>) -> Seq<char> {
    text::glued(
        seq![
            "Could not fetch origin/"@,
            base,
            " ("@,
            what,
            "); this worktree is based on the local "@,
            base,
            " branch."@,
        ],
    )
}

/// The remark where the remote could not be reached, and nothing depends on it.
pub open spec fn unreachable_remark(base: Seq<char>, why: Seq<char>) -> Seq<char> {
    text::glued(
        seq![
            "Could not reach origin to fetch "@,
            base,
            " ("@,
            why,
            "); this worktree was reused from a previous attempt, so nothing needed the network. `origin/"@,
            base,
            "` may be stale — re-run the fetch yourself once you are back online."@,
        ],
    )
}

/// The error where the remote could not be reached, and the worktree depends on
/// it.
pub open spec fn unreachable_error(base: Seq<char>, why: Seq<char>) -> Seq<char> {
    text::glued(
        seq![
            "Could not reach origin to fetch "@,
            base,
            " after 3 attempts: "@,
            why,
            ". Check network connectivity and that origin is reachable (`git -C <repo> fetch origin "@,
            base,
            "`), then dispatch again."@,
        ],
    )
}

/// The tries after the first, from index `at` of the answers on, where `left` of
/// them are left.
pub open spec fn refetched(
    repo: Seq<char>,
    base: Seq<char>,
    h: Seq<AnswerView>,
    at: int,
    left: nat,
    why: Seq<char>,
) -> StepView<FetchOutcomeView>
    decreases left,
{
    if left == 0 {
        StepView::Failed(unreachable_error(base, why))
    } else if h.len() <= at {
        StepView::Ask(ask_fetch(repo, base, FETCH_RETRY_DELAY_MILLIS))
    } else if h[at].reply().succeeded() {
        StepView::Done(FetchOutcomeView::Fetched, at + 1)
    } else {
        refetched(repo, base, h, at + 1, (left - 1) as nat, h[at].reply().complaint())
    }
}

/// What comes of a fetch, by the answers from index `at` on.
///
/// A fetch that succeeds is all there is to it. Where nothing depends on it, a
/// failure is a remark. Else the failure is looked into, once: where there is
/// nothing to fetch, that is the outcome, and where it is anything else the
/// fetch is tried again until the tries are used up.
pub open spec fn fetched(
    repo: Seq<char>,
    base: Seq<char>,
    policy: FetchPolicy,
    h: Seq<AnswerView>,
    at: int,
) -> StepView<FetchOutcomeView> {
    if h.len() <= at {
        StepView::Ask(ask_fetch(repo, base, 0))
    } else if h[at].reply().succeeded() {
        StepView::Done(FetchOutcomeView::Fetched, at + 1)
    } else if policy == FetchPolicy::BestEffort {
        StepView::Done(
            FetchOutcomeView::Unreachable(unreachable_remark(base, h[at].reply().complaint())),
            at + 1,
        )
    } else {
        match classified(repo, base, h, at + 1) {
            StepView::Ask(action) => StepView::Ask(action),
            StepView::Failed(why) => StepView::Failed(why),
            StepView::Done(FetchFailureView::NoOriginRef(what), used) => StepView::Done(
                FetchOutcomeView::NoOriginRef(no_origin_remark(base, what)),
                used,
            ),
            StepView::Done(FetchFailureView::Unreachable, used) => refetched(
                repo,
                base,
                h,
                used,
                (FETCH_MAX_ATTEMPTS - 1) as nat,
                h[at].reply().complaint(),
            ),
        }
    }
}

/// Bring the remote branch up to date here, or find out that it cannot be.
pub fn fetch_origin(
    repo_path: &str,
    base: &str,
    policy: FetchPolicy,
    answers: &Vec<Answer>,
    at: usize,
) -> (r: Step<FetchOutcome>)
    ensures
        r@ == fetched(repo_path@, base@, policy, steps::history(answers@), at as int),
{
    let args = ["fetch", "origin", base];
    assert(text::slices(args@) =~= seq!["fetch"@, "origin"@, base@]);
    if answers.len() <= at {
        return Step::Ask(run_bounded(repo_path, &args, 0));
    }
    let first: Reply = answers[at].reply();
    if first.success() {
        return Step::Done(FetchOutcome::Fetched, at + 1);
    }
    if policy == FetchPolicy::BestEffort {
        let parts = [
            "Could not reach origin to fetch ",
            base,
            " (",
            first.complaint(),
            "); this worktree was reused from a previous attempt, so nothing needed the network. `origin/",
            base,
            "` may be stale — re-run the fetch yourself once you are back online.",
        ];
        let remark: String = text::glue(&parts);
        assert(remark@ == unreachable_remark(base@, first@.complaint())) by {
            assert(text::slices(parts@) =~= seq![
                "Could not reach origin to fetch "@,
                base@,
                " ("@,
                first@.complaint(),
                "); this worktree was reused from a previous attempt, so nothing needed the network. `origin/"@,
                base@,
                "` may be stale — re-run the fetch yourself once you are back online."@,
            ]);
        }
        return Step::Done(FetchOutcome::Unreachable(remark), at + 1);
    }
    let mut used: usize = match classify_fetch_failure(repo_path, base, answers, at + 1) {
        Step::Ask(action) => {
            return Step::Ask(action);
        },
        Step::Failed(why) => {
            return Step::Failed(why);
        },
        Step::Done(FetchFailure::NoOriginRef(what), used) => {
            let parts = [
                "Could not fetch origin/",
                base,
                " (",
                what.as_str(),
                "); this worktree is based on the local ",
                base,
                " branch.",
            ];
            let remark: String = text::glue(&parts);
            assert(remark@ == no_origin_remark(base@, what@)) by {
                assert(text::slices(parts@) =~= seq![
                    "Could not fetch origin/"@,
                    base@,
                    " ("@,
                    what@,
                    "); this worktree is based on the local "@,
                    base@,
                    " branch."@,
                ]);
            }
            return Step::Done(FetchOutcome::NoOriginRef(remark), used);
        },
        Step::Done(FetchFailure::Unreachable, used) => used,
    };
    let mut why: String = first.complaint().to_owned();
    let mut left: u32 = FETCH_MAX_ATTEMPTS - 1;
    let ghost h = steps::history(answers@);
    while left > 0
        invariant
            h == steps::history(answers@),
            text::slices(args@) == seq!["fetch"@, "origin"@, base@],
            fetched(repo_path@, base@, policy, h, at as int) == refetched(
                repo_path@,
                base@,
                h,
                used as int,
                left as nat,
                why@,
            ),
        decreases left,
    {
        if answers.len() <= used {
            return Step::Ask(run_bounded(repo_path, &args, FETCH_RETRY_DELAY_MILLIS));
        }
        let reply: Reply = answers[used].reply();
        if reply.success() {
            return Step::Done(FetchOutcome::Fetched, used + 1);
        }
        why = reply.complaint().to_owned();
        used += 1;
        left -= 1;
    }
    let parts = [
        "Could not reach origin to fetch ",
        base,
        " after 3 attempts: ",
        why.as_str(),
        ". Check network connectivity and that origin is reachable (`git -C <repo> fetch origin ",
        base,
        "`), then dispatch again.",
    ];
    let error: String = text::glue(&parts);
    assert(error@ == unreachable_error(base@, why@)) by {
        assert(text::slices(parts@) =~= seq![
            "Could not reach origin to fetch "@,
            base@,
            " after 3 attempts: "@,
            why@,
            ". Check network connectivity and that origin is reachable (`git -C <repo> fetch origin "@,
            base@,
            "`), then dispatch again."@,
        ]);
    }
    Step::Failed(error)
}

/// Ask how far the local and the remote branch are apart.
pub open spec fn ask_drift(repo: Seq<char>, base: Seq<char>) -> ActionView {
    bounded_git(
        repo,
        seq!["rev-list"@, "--count"@, "--left-right"@, base + "..."@ + git::origin_name(base)],
        0,
    )
}

/// How many commits the local branch has that the remote one lacks; `None` where
/// the answer does not say it. The answer is two numbers, this one first.
pub open spec fn commits_ahead(reply: ReplyView) -> Option<nat> {
    match reply {
        ReplyView::Exited { code, stdout, .. } => {
            let counts = text::words(stdout);
            if code == Some(0i32) && counts.len() == 2 && text::is_numeral(counts[0])
                && text::is_numeral(counts[1]) {
                Some(text::digits_value(counts[0]))
            } else {
                None
            }
        },
        ReplyView::NotRun(_) => None,
    }
}

/// The branch to start from once the remote one is up to date. The local one only
/// where it is known to be ahead: where that cannot be said there may be none.
pub open spec fn selected(reply: ReplyView, base: Seq<char>) -> StartPointView {
    match commits_ahead(reply) {
        Some(ahead) => if ahead > 0 {
            StartPointView::Local { base }
        } else {
            StartPointView::Remote { base }
        },
        None => StartPointView::Remote { base },
    }
}

/// Is a run of digits more than nothing?
fn is_positive(s: &str) -> (r: bool)
    requires
        text::is_numeral(s@),
    ensures
        r == (text::digits_value(s@) > 0),
{
    match text::numeral_value(s) {
        Some(n) => n > 0,
        None => true,
    }
}

/// Is `s` a numeral?
fn numeral(s: &str) -> (r: bool)
    ensures
        r == text::is_numeral(s@),
{
    let cs: Vec<char> = text::chars_of(s);
    let mut i: usize = 0;
    while i < cs.len()
        invariant
            cs@ == s@,
            i <= cs.len(),
            forall|j: int| 0 <= j < i ==> text::is_digit(#[trigger] s@[j]),
        decreases cs.len() - i,
    {
        let c: char = cs[i];
        if !('0' <= c && c <= '9') {
            assert(!text::is_digit(s@[i as int]));
            return false;
        }
        i += 1;
    }
    cs.len() > 0
}

/// The branch to start from, by what came of the question how far the two are
/// apart.
pub fn start_point_for(reply: &Reply, base: &str) -> (r: StartPoint)
    ensures
        r@ == selected(reply@, base@),
{
    let ahead: bool = match reply {
        Reply::NotRun(_) => false,
        Reply::Exited { code: _, stdout, .. } => {
            let counts: Vec<String> = text::words_of(stdout.as_str());
            proof {
                assert(text::texts(counts@).len() == counts@.len());
            }
            if reply.success() && counts.len() == 2 {
                proof {
                    assert(text::texts(counts@)[0] == counts@[0]@);
                    assert(text::texts(counts@)[1] == counts@[1]@);
                }
                numeral(counts[0].as_str()) && numeral(counts[1].as_str()) && is_positive(
                    counts[0].as_str(),
                )
            } else {
                false
            }
        },
    };
    if ahead {
        StartPoint::Local { base: base.to_owned() }
    } else {
        StartPoint::Remote { base: base.to_owned() }
    }
}

/// The branch to start from, by the answers from index `at` on.
pub open spec fn selecting(repo: Seq<char>, base: Seq<char>, h: Seq<AnswerView>, at: int) -> StepView<
    StartPointView,
> {
    if h.len() <= at {
        StepView::Ask(ask_drift(repo, base))
    } else {
        StepView::Done(selected(h[at].reply(), base), at + 1)
    }
}

/// Choose the branch to start from, once the remote one is up to date.
pub fn select_start_point(repo_path: &str, base: &str, answers: &Vec<Answer>, at: usize) -> (r: Step<
    StartPoint,
>)
    ensures
        r@ == selecting(repo_path@, base@, steps::history(answers@), at as int),
{
    if answers.len() <= at {
        let origin: String = git::origin_ref(base);
        let range: String = base.to_owned().concat("...").concat(origin.as_str());
        let args = ["rev-list", "--count", "--left-right", range.as_str()];
        assert(text::slices(args@) =~= seq![
            "rev-list"@,
            "--count"@,
            "--left-right"@,
            base@ + "..."@ + git::origin_name(base@),
        ]);
        return Step::Ask(run_bounded(repo_path, &args, 0));
    }
    let reply: Reply = answers[at].reply();
    Step::Done(start_point_for(&reply, base), at + 1)
}

/// Ask whether a commit can be reached under the branch's name here.
pub open spec fn ask_local(repo: Seq<char>, base: Seq<char>) -> ActionView {
    bounded_git(
        repo,
        seq!["rev-parse"@, "--verify"@, "--quiet"@, base + "^{commit}"@],
        0,
    )
}

/// The error where neither the remote nor the local branch is there.
pub open spec fn no_base_error(repo: Seq<char>, base: Seq<char>) -> Seq<char> {
    text::glued(
        seq![
            "Cannot base a worktree on "@,
            base,
            ": this repository has neither origin/"@,
            base,
            " nor a local "@,
            base,
            ". Set the task's base branch to one the repository actually has (`git -C "@,
            repo,
            " branch -a`), then dispatch again."@,
        ],
    )
}

/// Is the local branch there, by the answers from index `at` on? A question that
/// could not be asked is left to whoever needs the branch next.
pub open spec fn local_base(repo: Seq<char>, base: Seq<char>, h: Seq<AnswerView>, at: int) -> StepView<
    (),
> {
    if h.len() <= at {
        StepView::Ask(ask_local(repo, base))
    } else if h[at].reply() is NotRun || h[at].reply().succeeded() {
        StepView::Done((), at + 1)
    } else {
        StepView::Failed(no_base_error(repo, base))
    }
}

/// Refuse a base branch that is neither on the remote nor here.
pub fn ensure_local_base_resolves(repo_path: &str, base: &str, answers: &Vec<Answer>, at: usize) -> (r:
    Step<()>)
    ensures
        r@ == local_base(repo_path@, base@, steps::history(answers@), at as int),
{
    if answers.len() <= at {
        let peeled: String = base.to_owned().concat("^{commit}");
        let args = ["rev-parse", "--verify", "--quiet", peeled.as_str()];
        assert(text::slices(args@) =~= seq![
            "rev-parse"@,
            "--verify"@,
            "--quiet"@,
            base@ + "^{commit}"@,
        ]);
        return Step::Ask(run_bounded(repo_path, &args, 0));
    }
    let reply: Reply = answers[at].reply();
    let resolves: bool = match &reply {
        Reply::NotRun(_) => true,
        Reply::Exited { .. } => reply.success(),
    };
    if resolves {
        return Step::Done((), at + 1);
    }
    let parts = [
        "Cannot base a worktree on ",
        base,
        ": this repository has neither origin/",
        base,
        " nor a local ",
        base,
        ". Set the task's base branch to one the repository actually has (`git -C ",
        repo_path,
        " branch -a`), then dispatch again.",
    ];
    let error: String = text::glue(&parts);
    assert(error@ == no_base_error(repo_path@, base@)) by {
        assert(text::slices(parts@) =~= seq![
            "Cannot base a worktree on "@,
            base@,
            ": this repository has neither origin/"@,
            base@,
            " nor a local "@,
            base@,
            ". Set the task's base branch to one the repository actually has (`git -C "@,
            repo_path@,
            " branch -a`), then dispatch again."@,
        ]);
    }
    Step::Failed(error)
}

/// The ref to start from, if any is asked for, and a remark for the agent.
#[derive(Clone, Debug, PartialEq, Eq)]
pub struct Resolved {
    pub start_point: Option<StartPoint>,
    pub fetch_warning: Option<String>,
}

/// [`Resolved`] as values.
pub struct ResolvedView {
    pub start_point: Option<StartPointView>,
    pub fetch_warning: Option<Seq<char>>,
}

impl View for Resolved {
    type V = ResolvedView;

    open spec fn view(&self) -> ResolvedView {
        ResolvedView {
            start_point: match self.start_point {
                Some(sp) => Some(sp@),
                None => None,
            },
            fetch_warning: match self.fetch_warning {
                Some(s) => Some(s@),
                None => None,
            },
        }
    }
}

/// The error where the remote lacks the head branch of a pull request.
pub open spec fn no_head_error(head: Seq<char>) -> Seq<char> {
    text::glued(
        seq![
            "origin has no branch "@,
            head,
            "; refusing to base a PR review on a local branch of the same name"@,
        ],
    )
}

/// The fetch is made whether or not the worktree is there already, so that the
/// remote branch is fresh for whoever rebases onto it.
pub open spec fn policy_for(reused: bool) -> FetchPolicy {
    if reused {
        FetchPolicy::BestEffort
    } else {
        FetchPolicy::Required
    }
}

/// The ref to start from, by the answers from index `at` on.
///
/// Without a base there is none. Where the fetch succeeds, a pull request's head
/// is the remote one, and for a base branch the two are compared. Where there is
/// no remote branch, a base branch is the local one, which for a new worktree has
/// to be there; a pull request's head is refused. Where the remote cannot be
/// reached, and nothing depends on it, a base branch is the local one and a head
/// stays the remote one.
pub open spec fn resolving(
    repo: Seq<char>,
    base: Option<BaseRefView>,
    reused: bool,
    h: Seq<AnswerView>,
    at: int,
) -> StepView<ResolvedView> {
    match base {
        None => StepView::Done(ResolvedView { start_point: None, fetch_warning: None }, at),
        Some(base) => match fetched(repo, base.name(), policy_for(reused), h, at) {
            StepView::Ask(action) => StepView::Ask(action),
            StepView::Failed(why) => StepView::Failed(why),
            StepView::Done(FetchOutcomeView::Fetched, used) => match base {
                BaseRefView::PrHead(name) => StepView::Done(
                    ResolvedView {
                        start_point: Some(StartPointView::Remote { base: name }),
                        fetch_warning: None,
                    },
                    used,
                ),
                BaseRefView::Branch(name) => match selecting(repo, name, h, used) {
                    StepView::Ask(action) => StepView::Ask(action),
                    StepView::Failed(why) => StepView::Failed(why),
                    StepView::Done(sp, used) => StepView::Done(
                        ResolvedView { start_point: Some(sp), fetch_warning: None },
                        used,
                    ),
                },
            },
            StepView::Done(FetchOutcomeView::NoOriginRef(remark), used) => match base {
                BaseRefView::PrHead(name) => StepView::Failed(no_head_error(name)),
                BaseRefView::Branch(name) => {
                    let local = ResolvedView {
                        start_point: Some(StartPointView::Local { base: name }),
                        fetch_warning: Some(remark),
                    };
                    if reused {
                        StepView::Done(local, used)
                    } else {
                        match local_base(repo, name, h, used) {
                            StepView::Ask(action) => StepView::Ask(action),
                            StepView::Failed(why) => StepView::Failed(why),
                            StepView::Done((), used) => StepView::Done(local, used),
                        }
                    }
                },
            },
            StepView::Done(FetchOutcomeView::Unreachable(remark), used) => match base {
                BaseRefView::PrHead(name) => StepView::Done(
                    ResolvedView {
                        start_point: Some(StartPointView::Remote { base: name }),
                        fetch_warning: Some(remark),
                    },
                    used,
                ),
                BaseRefView::Branch(name) => StepView::Done(
                    ResolvedView {
                        start_point: Some(StartPointView::Local { base: name }),
                        fetch_warning: Some(remark),
                    },
                    used,
                ),
            },
        },
    }
}

/// [`BaseRef`], where there is one, as values.
pub open spec fn opt_base(base: Option<BaseRef>) -> Option<BaseRefView> {
    match base {
        Some(base) => Some(base@),
        None => None,
    }
}

/// Choose the ref that a worktree starts from, or say why there is none.
pub fn resolve_start_point(
    repo_path: &str,
    base: &Option<BaseRef>,
    reused_worktree: bool,
    answers: &Vec<Answer>,
    at: usize,
) -> (r: Step<Resolved>)
    ensures
        r@ == resolving(
            repo_path@,
            opt_base(*base),
            reused_worktree,
            steps::history(answers@),
            at as int,
        ),
{
    let policy: FetchPolicy = if reused_worktree {
        FetchPolicy::BestEffort
    } else {
        FetchPolicy::Required
    };
    let base: &BaseRef = match base {
        Some(base) => base,
        None => {
            return Step::Done(Resolved { start_point: None, fetch_warning: None }, at);
        },
    };
    match fetch_origin(repo_path, base.name(), policy, answers, at) {
        Step::Ask(action) => Step::Ask(action),
        Step::Failed(why) => Step::Failed(why),
        Step::Done(FetchOutcome::Fetched, used) => match base {
            BaseRef::PrHead(name) => Step::Done(
                Resolved {
                    start_point: Some(StartPoint::Remote { base: name.clone() }),
                    fetch_warning: None,
                },
                used,
            ),
            BaseRef::Branch(name) => match select_start_point(
                repo_path,
                name.as_str(),
                answers,
                used,
            ) {
                Step::Ask(action) => Step::Ask(action),
                Step::Failed(why) => Step::Failed(why),
                Step::Done(sp, used) => Step::Done(
                    Resolved { start_point: Some(sp), fetch_warning: None },
                    used,
                ),
            },
        },
        Step::Done(FetchOutcome::NoOriginRef(remark), used) => match base {
            BaseRef::PrHead(name) => {
                let parts = [
                    "origin has no branch ",
                    name.as_str(),
                    "; refusing to base a PR review on a local branch of the same name",
                ];
                let error: String = text::glue(&parts);
                assert(error@ == no_head_error(name@)) by {
                    assert(text::slices(parts@) =~= seq![
                        "origin has no branch "@,
                        name@,
                        "; refusing to base a PR review on a local branch of the same name"@,
                    ]);
                }
                Step::Failed(error)
            },
            BaseRef::Branch(name) => {
                let local: Resolved = Resolved {
                    start_point: Some(StartPoint::Local { base: name.clone() }),
                    fetch_warning: Some(remark),
                };
                if reused_worktree {
                    Step::Done(local, used)
                } else {
                    match ensure_local_base_resolves(repo_path, name.as_str(), answers, used) {
                        Step::Ask(action) => Step::Ask(action),
                        Step::Failed(why) => Step::Failed(why),
                        Step::Done(_, used) => Step::Done(local, used),
                    }
                }
            },
        },
        Step::Done(FetchOutcome::Unreachable(remark), used) => match base {
            BaseRef::PrHead(name) => Step::Done(
                Resolved {
                    start_point: Some(StartPoint::Remote { base: name.clone() }),
                    fetch_warning: Some(remark),
                },
                used,
            ),
            BaseRef::Branch(name) => Step::Done(
                Resolved {
                    start_point: Some(StartPoint::Local { base: name.clone() }),
                    fetch_warning: Some(remark),
                },
                used,
            ),
        },
    }
}

/// A review never starts from a local branch: whatever comes of the questions, a
/// pull request's head is the remote one or nothing.
pub proof fn pr_head_is_never_local(
    repo: Seq<char>,
    head: Seq<char>,
    reused: bool,
    h: Seq<AnswerView>,
    at: int,
)
    ensures
        resolving(repo, Some(BaseRefView::PrHead(head)), reused, h, at) matches StepView::Done(
            resolved,
            _,
        ) ==> resolved.start_point == Some(StartPointView::Remote { base: head }),
{
}

/// A review is never measured against a local branch, nor is one looked for.
pub proof fn pr_head_is_never_compared(
    repo: Seq<char>,
    head: Seq<char>,
    reused: bool,
    h: Seq<AnswerView>,
    at: int,
)
    ensures
        resolving(repo, Some(BaseRefView::PrHead(head)), reused, h, at) matches StepView::Ask(
            action,
        ) ==> {
            ||| action == ask_fetch(repo, head, 0)
            ||| action == ask_fetch(repo, head, FETCH_RETRY_DELAY_MILLIS)
            ||| action == ask_remote(repo)
            ||| action == ask_remote_branch(repo, head)
        },
{
    lemma_refetch_asks(repo, head, h, at + 2, 2, h[at].reply().complaint());
    lemma_refetch_asks(repo, head, h, at + 3, 2, h[at].reply().complaint());
}

pub proof fn lemma_refetch_asks(
    repo: Seq<char>,
    base: Seq<char>,
    h: Seq<AnswerView>,
    at: int,
    left: nat,
    why: Seq<char>,
)
    ensures
        refetched(repo, base, h, at, left, why) matches StepView::Ask(action) ==> action
            == ask_fetch(repo, base, FETCH_RETRY_DELAY_MILLIS) && h.len() < at + left,
        refetched(repo, base, h, at, left, why) matches StepView::Done(outcome, used) ==> outcome
            == FetchOutcomeView::Fetched && at < used <= at + left && used <= h.len(),
    decreases left,
{
    if left > 0 && at < h.len() && !h[at].reply().succeeded() {
        lemma_refetch_asks(
            repo,
            base,
            h,
            at + 1,
            (left - 1) as nat,
            h[at].reply().complaint(),
        );
    }
}

/// A worktree that is there already never waits for the remote: one answer to one
/// fetch settles the fetch, and it never stops the dispatch.
pub proof fn reuse_asks_the_remote_once(
    repo: Seq<char>,
    base: Seq<char>,
    h: Seq<AnswerView>,
    at: int,
)
    requires
        at < h.len(),
    ensures
        fetched(repo, base, FetchPolicy::BestEffort, h, at) matches StepView::Done(_, used) && used
            == at + 1,
{
}

/// A new worktree never starts from a local branch because the remote could not
/// be reached: it starts from one only where there is no remote branch, or where
/// the local one is ahead of it.
pub proof fn unreachable_remote_stops_a_new_worktree(
    repo: Seq<char>,
    base: Seq<char>,
    h: Seq<AnswerView>,
    at: int,
)
    ensures
        fetched(repo, base, FetchPolicy::Required, h, at) matches StepView::Done(outcome, _)
            ==> !(outcome is Unreachable),
{
    lemma_refetch_asks(repo, base, h, at + 2, 2, h[at].reply().complaint());
    lemma_refetch_asks(repo, base, h, at + 3, 2, h[at].reply().complaint());
}

/// The start point is settled within its share of the commands that provisioning
/// may take: nothing is asked once that many answers are in.
pub proof fn start_point_is_settled_in_time(
    repo: Seq<char>,
    base: Option<BaseRefView>,
    reused: bool,
    h: Seq<AnswerView>,
    at: int,
)
    requires
        0 <= at <= h.len(),
    ensures
        resolving(repo, base, reused, h, at) is Ask ==> h.len() < at
            + PROVISION_MAX_SUBPROCESS_CALLS - 2,
        resolving(repo, base, reused, h, at) matches StepView::Done(_, used) ==> at <= used <= at
            + PROVISION_MAX_SUBPROCESS_CALLS - 2 && used <= h.len(),
{
    match base {
        Some(base) => {
            let why = h[at].reply().complaint();
            lemma_refetch_asks(repo, base.name(), h, at + 2, 2, why);
            lemma_refetch_asks(repo, base.name(), h, at + 3, 2, why);
        },
        None => {},
    }
}

/// Is it a text of digits, and not empty?
pub open spec fn is_count(s: Seq<char>) -> bool {
    s.len() > 0 && forall|i: int| 0 <= i < s.len() ==> '0' <= #[trigger] s[i] <= '9'
}

/// The two counts of an answer decide: the local branch is the one to start from exactly
/// where the first count, that of the commits which only it has, is not zero, whatever
/// the second says. So no commit that is only here is ever left behind.
pub proof fn a_local_commit_is_never_left_behind(
    front: Seq<char>,
    ahead: Seq<char>,
    gap: Seq<char>,
    behind: Seq<char>,
    back: Seq<char>,
    stderr: Seq<char>,
    base: Seq<char>,
)
    requires
        is_count(ahead),
        is_count(behind),
        text::all_white(front),
        text::all_white(gap),
        text::all_white(back),
        gap.len() > 0,
    ensures
        ({
            let reply = ReplyView::Exited {
                code: Some(0i32),
                stdout: front + ahead + gap + behind + back,
                stderr,
            };
            &&& (exists|i: int| 0 <= i < ahead.len() && #[trigger] ahead[i] != '0') ==> selected(
                reply,
                base,
            ) == (StartPointView::Local { base })
            &&& (forall|i: int| 0 <= i < ahead.len() ==> #[trigger] ahead[i] == '0') ==> selected(
                reply,
                base,
            ) == (StartPointView::Remote { base })
        }),
{
    assert forall|i: int| 0 <= i < ahead.len() implies !text::is_white(#[trigger] ahead[i]) by {
        assert('0' <= ahead[i] <= '9');
    }
    assert forall|i: int| 0 <= i < behind.len() implies !text::is_white(#[trigger] behind[i]) by {
        assert('0' <= behind[i] <= '9');
    }
    text::two_words_are_read(front, ahead, gap, behind, back);
    text::numerals_are_decimal(ahead, '0');
    text::numerals_are_decimal(behind, '0');
}

/// Where the answer is not a pair of counts from a command that ended well, the remote
/// branch is the one to start from.
pub proof fn in_doubt_the_remote_branch_is_taken(reply: ReplyView, base: Seq<char>)
    requires
        !(reply matches ReplyView::Exited { code, stdout, .. } && code == Some(0i32) && text::words(
            stdout,
        ).len() == 2 && is_count(text::words(stdout)[0]) && is_count(text::words(stdout)[1])),
    ensures
        selected(reply, base) == (StartPointView::Remote { base }),
{
}

/// The ref for git is the branch itself where the local one is meant, and the branch
/// behind the remote's name where the remote one is.
pub proof fn the_ref_says_which_branch_is_meant(base: Seq<char>)
    ensures
        (StartPointView::Local { base }).git_ref() == base,
        (StartPointView::Remote { base }).git_ref() == "origin/"@ + base,
        (StartPointView::Local { base }).base() == base,
        (StartPointView::Remote { base }).base() == base,
{
}

/// Why a fetch failed is said of the remote only what it said itself: that there is none
/// where the question for it ended badly, and that it lacks the branch where that question
/// ended with code two. Anything else, a question that could not be asked among it, is a
/// remote that cannot be reached.
pub proof fn only_the_remote_says_what_it_lacks(
    repo: Seq<char>,
    base: Seq<char>,
    h: Seq<AnswerView>,
    at: int,
)
    requires
        0 <= at,
    ensures
        h.len() == at ==> classified(repo, base, h, at) == StepView::<FetchFailureView>::Ask(
            ask_remote(repo),
        ),
        at < h.len() ==> (h[at].reply() matches ReplyView::Exited { code, .. } ==> (code != Some(
            0i32,
        ) ==> (classified(repo, base, h, at) matches StepView::Done(failure, used) && failure
            is NoOriginRef && used == at + 1))),
        at < h.len() && h[at].reply() is NotRun ==> classified(repo, base, h, at)
            == StepView::Done(FetchFailureView::Unreachable, at + 1),
        at + 1 == h.len() && h[at].reply().succeeded() ==> classified(repo, base, h, at)
            == StepView::<FetchFailureView>::Ask(ask_remote_branch(repo, base)),
        at + 1 < h.len() && h[at].reply().succeeded() ==> {
            let lacks = h[at + 1].reply() matches ReplyView::Exited { code, .. } && code == Some(
                2i32,
            );
            &&& lacks ==> (classified(repo, base, h, at) matches StepView::Done(failure, used)
                && failure is NoOriginRef && used == at + 2)
            &&& !lacks ==> classified(repo, base, h, at) == StepView::Done(
                FetchFailureView::Unreachable,
                at + 2,
            )
        },
{
}

/// A fetch that succeeds is over at once. One that a new worktree depends on, and whose
/// remote cannot be reached, is tried three times in all, the second and the third time
/// after a wait of half a second; a later success is a success, and three failures are an
/// error.
pub proof fn a_needed_fetch_is_tried_three_times(
    repo: Seq<char>,
    base: Seq<char>,
    policy: FetchPolicy,
    h: Seq<AnswerView>,
    at: int,
)
    requires
        0 <= at <= h.len(),
    ensures
        at == h.len() ==> fetched(repo, base, policy, h, at) == StepView::<FetchOutcomeView>::Ask(
            ask_fetch(repo, base, 0),
        ),
        at < h.len() && h[at].reply().succeeded() ==> fetched(repo, base, policy, h, at)
            == StepView::Done(FetchOutcomeView::Fetched, at + 1),
        at < h.len() && !h[at].reply().succeeded() && policy == FetchPolicy::BestEffort ==> (
        fetched(repo, base, policy, h, at) matches StepView::Done(outcome, used) && outcome
            is Unreachable && used == at + 1),
        at < h.len() && !h[at].reply().succeeded() && policy == FetchPolicy::Required ==> {
            let step = fetched(repo, base, policy, h, at);
            let cause = classified(repo, base, h, at + 1);
            &&& cause matches StepView::Ask(a) ==> step == StepView::<FetchOutcomeView>::Ask(a)
            &&& cause matches StepView::Done(FetchFailureView::NoOriginRef(_), used) ==> (
            step matches StepView::Done(outcome, u) && outcome is NoOriginRef && u == used)
            &&& cause matches StepView::Done(FetchFailureView::Unreachable, used) ==> {
                &&& h.len() <= used ==> step == StepView::<FetchOutcomeView>::Ask(
                    ask_fetch(repo, base, 500),
                )
                &&& used < h.len() && h[used].reply().succeeded() ==> step == StepView::Done(
                    FetchOutcomeView::Fetched,
                    used + 1,
                )
                &&& used + 1 == h.len() && !h[used].reply().succeeded() ==> step == StepView::<
                    FetchOutcomeView,
                >::Ask(ask_fetch(repo, base, 500))
                &&& used + 1 < h.len() && !h[used].reply().succeeded() && h[used
                    + 1].reply().succeeded() ==> step == StepView::Done(
                    FetchOutcomeView::Fetched,
                    used + 2,
                )
                &&& used + 1 < h.len() && !h[used].reply().succeeded() && !h[used
                    + 1].reply().succeeded() ==> step is Failed
            }
        },
{
    reveal_with_fuel(refetched, 4);
}

/// A new worktree on a base branch starts from the branch that the comparison chooses once
/// the fetch has succeeded; where the remote lacks the branch it starts from the local one,
/// with a remark, provided that a commit can be reached under its name.
pub proof fn a_base_branch_starts_where_the_fetch_leads(
    repo: Seq<char>,
    name: Seq<char>,
    reused: bool,
    h: Seq<AnswerView>,
    at: int,
)
    ensures
        ({
            let step = resolving(repo, Some(BaseRefView::Branch(name)), reused, h, at);
            let policy = if reused {
                FetchPolicy::BestEffort
            } else {
                FetchPolicy::Required
            };
            match fetched(repo, name, policy, h, at) {
                StepView::Ask(a) => step == StepView::<ResolvedView>::Ask(a),
                StepView::Failed(why) => step == StepView::<ResolvedView>::Failed(why),
                StepView::Done(FetchOutcomeView::Fetched, used) => {
                    &&& h.len() <= used ==> step == StepView::<ResolvedView>::Ask(
                        ask_drift(repo, name),
                    )
                    &&& used < h.len() ==> (step matches StepView::Done(r, u) && r.start_point
                        == Some(selected(h[used].reply(), name)) && r.fetch_warning is None && u
                        == used + 1)
                },
                StepView::Done(FetchOutcomeView::NoOriginRef(remark), used) => {
                    let local = ResolvedView {
                        start_point: Some(StartPointView::Local { base: name }),
                        fetch_warning: Some(remark),
                    };
                    &&& reused ==> step == StepView::Done(local, used)
                    &&& !reused && h.len() <= used ==> step == StepView::<ResolvedView>::Ask(
                        ask_local(repo, name),
                    )
                    &&& !reused && used < h.len() && h[used].reply().succeeded() ==> step
                        == StepView::Done(local, used + 1)
                    &&& !reused && used < h.len() && (h[used].reply() matches ReplyView::Exited {
                        code,
                        ..
                    } && code != Some(0i32)) ==> step is Failed
                },
                StepView::Done(FetchOutcomeView::Unreachable(remark), used) => step
                    == StepView::Done(
                    ResolvedView {
                        start_point: Some(StartPointView::Local { base: name }),
                        fetch_warning: Some(remark),
                    },
                    used,
                ),
            }
        }),
        resolving(repo, None, reused, h, at) == StepView::Done(
            ResolvedView { start_point: None, fetch_warning: None },
            at,
        ),
{
}

/// A git command in a repository, which is stopped once it takes too long and is made
/// after a wait.
pub open spec fn bounded_command(
    repo: Seq<char>,
    args: Seq<Seq<char>>,
    pause_millis: u64,
) -> ActionView {
    ActionView::Run(
        CommandView {
            program: "git"@,
            args: seq!["-C"@, repo] + args,
            bounded: true,
            pause_millis,
        },
    )
}

/// What is asked of git, word for word: each question is put in the repository, and each is
/// bounded in time.
pub proof fn git_is_asked_in_these_words(repo: Seq<char>, base: Seq<char>, pause_millis: u64)
    ensures
        ask_remote(repo) == bounded_command(repo, seq!["remote"@, "get-url"@, "origin"@], 0),
        ask_remote_branch(repo, base) == bounded_command(
            repo,
            seq!["ls-remote"@, "--exit-code"@, "origin"@, "refs/heads/"@ + base],
            0,
        ),
        ask_fetch(repo, base, pause_millis) == bounded_command(
            repo,
            seq!["fetch"@, "origin"@, base],
            pause_millis,
        ),
        ask_drift(repo, base) == bounded_command(
            repo,
            seq!["rev-list"@, "--count"@, "--left-right"@, base + "..."@ + ("origin/"@ + base)],
            0,
        ),
        ask_local(repo, base) == bounded_command(
            repo,
            seq!["rev-parse"@, "--verify"@, "--quiet"@, base + "^{commit}"@],
            0,
        ),
{
}

/// What is said of a fetch that failed, and of a branch that is not there, word for word.
pub proof fn a_failed_fetch_is_told_in_these_words(
    repo: Seq<char>,
    base: Seq<char>,
    why: Seq<char>,
)
    ensures
        no_origin_remark(base, why) == "Could not fetch origin/"@ + base + " ("@ + why
            + "); this worktree is based on the local "@ + base + " branch."@,
        unreachable_remark(base, why) == "Could not reach origin to fetch "@ + base + " ("@ + why
            + "); this worktree was reused from a previous attempt, so nothing needed the network. `origin/"@
            + base + "` may be stale — re-run the fetch yourself once you are back online."@,
        unreachable_error(base, why) == "Could not reach origin to fetch "@ + base
            + " after 3 attempts: "@ + why
            + ". Check network connectivity and that origin is reachable (`git -C <repo> fetch origin "@
            + base + "`), then dispatch again."@,
        no_base_error(repo, base) == "Cannot base a worktree on "@ + base
            + ": this repository has neither origin/"@ + base + " nor a local "@ + base
            + ". Set the task's base branch to one the repository actually has (`git -C "@ + repo
            + " branch -a`), then dispatch again."@,
        no_head_error(base) == "origin has no branch "@ + base
            + "; refusing to base a PR review on a local branch of the same name"@,
{
    text::seven_parts_are_glued(
        "Could not fetch origin/"@,
        base,
        " ("@,
        why,
        "); this worktree is based on the local "@,
        base,
        " branch."@,
    );
    text::seven_parts_are_glued(
        "Could not reach origin to fetch "@,
        base,
        " ("@,
        why,
        "); this worktree was reused from a previous attempt, so nothing needed the network. `origin/"@,
        base,
        "` may be stale — re-run the fetch yourself once you are back online."@,
    );
    text::seven_parts_are_glued(
        "Could not reach origin to fetch "@,
        base,
        " after 3 attempts: "@,
        why,
        ". Check network connectivity and that origin is reachable (`git -C <repo> fetch origin "@,
        base,
        "`), then dispatch again."@,
    );
    let front = seq![
        "Cannot base a worktree on "@,
        base,
        ": this repository has neither origin/"@,
        base,
        " nor a local "@,
        base,
        ". Set the task's base branch to one the repository actually has (`git -C "@,
    ];
    text::seven_parts_are_glued(
        "Cannot base a worktree on "@,
        base,
        ": this repository has neither origin/"@,
        base,
        " nor a local "@,
        base,
        ". Set the task's base branch to one the repository actually has (`git -C "@,
    );
    text::glueing_adds_at_the_end(front, repo);
    text::glueing_adds_at_the_end(front.push(repo), " branch -a`), then dispatch again."@);
    assert(front.push(repo).push(" branch -a`), then dispatch again."@) =~= seq![
        "Cannot base a worktree on "@,
        base,
        ": this repository has neither origin/"@,
        base,
        " nor a local "@,
        base,
        ". Set the task's base branch to one the repository actually has (`git -C "@,
        repo,
        " branch -a`), then dispatch again."@,
    ]);
    text::three_parts_are_glued(
        "origin has no branch "@,
        base,
        "; refusing to base a PR review on a local branch of the same name"@,
    );
}

/// A worktree for a pull request starts at the remote's head, fetched or not; where a
/// reused worktree could not fetch, that is remarked on with what git complained of.
pub proof fn a_head_starts_at_the_remote_with_a_remark(
    repo: Seq<char>,
    name: Seq<char>,
    h: Seq<AnswerView>,
    at: int,
    code: Option<i32>,
    stdout: Seq<char>,
    stderr: Seq<char>,
)
    requires
        0 <= at < h.len(),
        h[at] == AnswerView::Ran(ReplyView::Exited { code, stdout, stderr }),
    ensures
        code == Some(0i32) ==> forall|reused: bool|
            #[trigger] resolving(repo, Some(BaseRefView::PrHead(name)), reused, h, at)
                == StepView::Done(
                ResolvedView {
                    start_point: Some(StartPointView::Remote { base: name }),
                    fetch_warning: None,
                },
                at + 1,
            ),
        code != Some(0i32) ==> resolving(repo, Some(BaseRefView::PrHead(name)), true, h, at)
            == StepView::Done(
            ResolvedView {
                start_point: Some(StartPointView::Remote { base: name }),
                fetch_warning: Some(unreachable_remark(name, stderr)),
            },
            at + 1,
        ),
        code != Some(0i32) ==> resolving(repo, Some(BaseRefView::Branch(name)), true, h, at)
            == StepView::Done(
            ResolvedView {
                start_point: Some(StartPointView::Local { base: name }),
                fetch_warning: Some(unreachable_remark(name, stderr)),
            },
            at + 1,
        ),
{
}

/// A fetch that a new worktree depends on, and that fails for good, ends the search for a
/// ref with the fetch's own error.
pub proof fn a_fetch_that_fails_is_told_as_it_is(
    repo: Seq<char>,
    base: BaseRefView,
    h: Seq<AnswerView>,
    at: int,
    last: Seq<char>,
)
    requires
        0 <= at,
        fetched(repo, base.name(), FetchPolicy::Required, h, at) == StepView::<
            FetchOutcomeView,
        >::Failed(last),
    ensures
        resolving(repo, Some(base), false, h, at) == StepView::<ResolvedView>::Failed(last),
{
}

/// The tries after the first keep the complaint of the latest one: with none left, that is
/// what is told.
pub proof fn each_try_brings_its_own_complaint(
    repo: Seq<char>,
    base: Seq<char>,
    h: Seq<AnswerView>,
    at: int,
    left: nat,
    why: Seq<char>,
    code: Option<i32>,
    stdout: Seq<char>,
    stderr: Seq<char>,
)
    requires
        0 <= at < h.len(),
        left > 0,
        code != Some(0i32),
        h[at] == AnswerView::Ran(ReplyView::Exited { code, stdout, stderr }),
    ensures
        refetched(repo, base, h, at, 0, why) == StepView::<FetchOutcomeView>::Failed(
            unreachable_error(base, why),
        ),
        refetched(repo, base, h, at, left, why) == refetched(
            repo,
            base,
            h,
            at + 1,
            (left - 1) as nat,
            stderr,
        ),
{
}

} // verus!

use std::collections::BTreeMap;

use dispatch::models::{Task, TaskId};
use dispatch::process::Reply;
use dispatch::prompts::reused_rebase_preamble;
use dispatch::worktree::finish::{finish_task, FinishError, FinishStep};
use dispatch::worktree::provision::{
    provision_worktree, validate_repo_path, worktree_paths, ProvisionResult, ProvisionStep,
};
use dispatch::worktree::start::{
    fetch_origin, select_start_point, start_point_for, BaseRef, FetchOutcome, FetchPolicy,
    StartPoint, FETCH_MAX_ATTEMPTS, PROVISION_MAX_SUBPROCESS_CALLS,
};
use dispatch::worktree::steps::{Action, Answer, PathKind, Step};
use dispatch::worktree::teardown::{
    branch_from_worktree, teardown_task, Surroundings, TeardownFailure, TeardownStep,
};
use dispatch::worktree::windows::{kill_window_if_present, new_window};

fn ok() -> Reply {
    ok_with_stdout("")
}

fn ok_with_stdout(stdout: &str) -> Reply {
    Reply::Exited {
        code: Some(0),
        stdout: stdout.to_string(),
        stderr: String::new(),
    }
}

fn fail(stderr: &str) -> Reply {
    fail_with_code(1, stderr)
}

fn fail_with_code(code: i32, stderr: &str) -> Reply {
    Reply::Exited {
        code: Some(code),
        stdout: String::new(),
        stderr: stderr.to_string(),
    }
}

fn not_run(why: &str) -> Reply {
    Reply::NotRun(why.to_string())
}

fn around() -> Surroundings {
    Surroundings {
        home: "/home/me".to_string(),
        cwd: Some("/work".to_string()),
    }
}

/// A disk, a tmux and a git that say what they are told to say.
struct World {
    disk: BTreeMap<String, PathKind>,
    /// What commands with a given argument come to, in their order.
    replies: Vec<(&'static str, Reply)>,
    /// The windows that are open.
    windows: Vec<String>,
    /// What looking at a path comes to, where that fails.
    unreadable: Option<String>,
    /// What deleting comes to, where that fails.
    undeletable: Option<String>,
    calls: Vec<(String, Vec<String>)>,
    asked: Vec<Action>,
}

impl World {
    fn new() -> World {
        World {
            disk: BTreeMap::new(),
            replies: vec![],
            windows: vec![],
            unreadable: None,
            undeletable: None,
            calls: vec![],
            asked: vec![],
        }
    }

    fn with_repo(repo: &str) -> World {
        let mut world = World::new();
        world.disk.insert(repo.to_string(), PathKind::Directory);
        world
    }

    fn with_worktree(repo: &str, slug: &str) -> World {
        let mut world = World::with_repo(repo);
        world
            .disk
            .insert(format!("{repo}/.worktrees/{slug}"), PathKind::Directory);
        world
    }

    fn with_window(mut self, window: &str) -> World {
        self.windows.push(window.to_string());
        self
    }

    fn on(mut self, needle: &'static str, reply: Reply) -> World {
        self.replies.push((needle, reply));
        self
    }

    fn kind(&self, path: &str) -> PathKind {
        *self.disk.get(path).unwrap_or(&PathKind::Absent)
    }

    fn perform(&mut self, action: &Action) -> Answer {
        self.asked.push(action.clone());
        match action {
            Action::Run(command) => {
                self.calls
                    .push((command.program.clone(), command.args.clone()));
                let next = self
                    .replies
                    .iter()
                    .position(|(needle, _)| command.args.iter().any(|a| a == needle));
                Answer::Ran(match next {
                    Some(i) => self.replies.remove(i).1,
                    None if command.args[0] == "list-windows" => {
                        ok_with_stdout(&(self.windows.join("\n") + "\n"))
                    }
                    None => ok(),
                })
            }
            Action::InspectLink(path) => match &self.unreadable {
                Some(why) => Answer::Failed(why.clone()),
                None => Answer::Found(self.kind(path)),
            },
            Action::InspectTarget(path) => match self.kind(path) {
                PathKind::Link => Answer::Found(PathKind::Directory),
                kind => Answer::Found(kind),
            },
            Action::MakeDirs(path) => {
                self.disk.insert(path.clone(), PathKind::Directory);
                Answer::Finished
            }
            Action::Unlink(path) | Action::RemoveTree(path) => match &self.undeletable {
                Some(why) => Answer::Failed(why.clone()),
                None => {
                    let below = format!("{path}/");
                    self.disk
                        .retain(|p, _| p != path && !p.starts_with(&below));
                    Answer::Finished
                }
            },
            Action::OpenWindow { window, dir } => {
                self.settle(|answers| new_window(window, dir, answers, 0))
            }
            Action::SetDispatchDir { window, dir } => {
                self.tmux(&["set-option", window, dir]);
                Answer::Finished
            }
            Action::EnsureSplitHook => {
                self.tmux(&["set-hook"]);
                Answer::Finished
            }
            Action::KillWindow(window) => {
                self.settle(|answers| kill_window_if_present(window, answers, 0))
            }
        }
    }

    fn settle(&mut self, step: impl Fn(&Vec<Answer>) -> Step<()>) -> Answer {
        let mut answers: Vec<Answer> = vec![];
        loop {
            match step(&answers) {
                Step::Ask(action) => answers.push(self.perform(&action)),
                Step::Done((), _) => return Answer::Finished,
                Step::Failed(why) => return Answer::Failed(why),
            }
        }
    }

    fn tmux(&mut self, args: &[&str]) {
        self.calls.push((
            "tmux".to_string(),
            args.iter().map(|a| a.to_string()).collect(),
        ));
    }

    fn index_of(&self, needle: &str) -> usize {
        self.calls
            .iter()
            .position(|(_, args)| args.iter().any(|a| a == needle))
            .unwrap_or_else(|| panic!("no call with {needle}: {:?}", self.calls))
    }

    fn count(&self, needle: &str) -> usize {
        self.calls
            .iter()
            .filter(|(_, args)| args.iter().any(|a| a == needle))
            .count()
    }

    fn runs_tmux(&self) -> bool {
        self.calls.iter().any(|(prog, _)| prog == "tmux")
    }

    fn provision(&mut self, task: &Task, base: Option<BaseRef>) -> Result<ProvisionResult, String> {
        let mut answers: Vec<Answer> = vec![];
        loop {
            match provision_worktree(task, &base, &around(), &answers) {
                ProvisionStep::Ask(action) => answers.push(self.perform(&action)),
                ProvisionStep::Provisioned(result) => return Ok(result),
                ProvisionStep::Failed(why) => return Err(why),
            }
        }
    }

    fn teardown(
        &mut self,
        repo: &str,
        worktree: Option<&str>,
        window: Option<&str>,
    ) -> Result<(), TeardownFailure> {
        let mut answers: Vec<Answer> = vec![];
        loop {
            match teardown_task(repo, worktree, window, &around(), &answers, 0) {
                TeardownStep::Ask(action) => answers.push(self.perform(&action)),
                TeardownStep::Released => return Ok(()),
                TeardownStep::Stuck(failure) => return Err(failure),
            }
        }
    }

    fn fetch(&mut self, base: &str, policy: FetchPolicy) -> Result<FetchOutcome, String> {
        let mut answers: Vec<Answer> = vec![];
        loop {
            match fetch_origin("/repo", base, policy, &answers, 0) {
                Step::Ask(action) => answers.push(self.perform(&action)),
                Step::Done(outcome, used) => {
                    assert_eq!(used, answers.len());
                    return Ok(outcome);
                }
                Step::Failed(why) => return Err(why),
            }
        }
    }

    fn select(&mut self, base: &str) -> StartPoint {
        let mut answers: Vec<Answer> = vec![];
        loop {
            match select_start_point("/repo", base, &answers, 0) {
                Step::Ask(action) => answers.push(self.perform(&action)),
                Step::Done(start_point, _) => return start_point,
                Step::Failed(why) => panic!("{why}"),
            }
        }
    }

    fn finish(&mut self, base: &str, window: Option<&str>) -> Result<(), FinishError> {
        let mut answers: Vec<Answer> = vec![];
        loop {
            match finish_task(
                "/repo",
                "/repo/.worktrees/42-fix-bug",
                "42-fix-bug",
                base,
                window,
                &answers,
            ) {
                FinishStep::Ask(action) => answers.push(self.perform(&action)),
                FinishStep::Finished => return Ok(()),
                FinishStep::Refused(error) => return Err(error),
            }
        }
    }
}

fn make_task(repo_path: &str) -> Task {
    Task {
        id: TaskId(42),
        title: "Fix bug".to_string(),
        description: "A nasty crash".to_string(),
        repo_path: repo_path.to_string(),
        ..Default::default()
    }
}

fn branch(name: &str) -> Option<BaseRef> {
    Some(BaseRef::Branch(name.to_string()))
}

fn pr_head(name: &str) -> Option<BaseRef> {
    Some(BaseRef::PrHead(name.to_string()))
}

fn worktree_remove_call(calls: &[(String, Vec<String>)]) -> Option<&(String, Vec<String>)> {
    calls.iter().find(|(prog, args)| {
        prog == "git"
            && args.contains(&"worktree".to_string())
            && args.contains(&"remove".to_string())
    })
}

fn find_call_arg(calls: &[(String, Vec<String>)], call_idx: usize, pattern: &str) -> String {
    calls[call_idx]
        .1
        .iter()
        .find(|a| a.contains(pattern))
        .unwrap_or_else(|| panic!("call {call_idx} missing arg matching {pattern:?}"))
        .clone()
}

#[test]
fn find_call_arg_returns_matching_arg() {
    let calls = vec![
        (
            "git".to_string(),
            vec!["worktree".to_string(), "add".to_string()],
        ),
        (
            "tmux".to_string(),
            vec!["new-window".to_string(), "-d".to_string()],
        ),
    ];
    let arg = find_call_arg(&calls, 1, "new-window");
    assert_eq!(arg, "new-window");
}

#[test]
#[should_panic(expected = "call 0 missing arg matching \"nonexistent\"")]
fn find_call_arg_panics_with_message_on_missing() {
    let calls = vec![("git".to_string(), vec!["status".to_string()])];
    find_call_arg(&calls, 0, "nonexistent");
}

fn found(path: &str) -> PathKind {
    let path = std::path::Path::new(path);
    if !path.exists() {
        PathKind::Absent
    } else if path.is_dir() {
        PathKind::Directory
    } else {
        PathKind::Other
    }
}

#[test]
fn validate_repo_path_existing_dir() {
    assert!(validate_repo_path("/tmp", "/home/me", found("/tmp")).is_ok());
}

#[test]
fn validate_repo_path_nonexistent() {
    let result = validate_repo_path("/nonexistent/path", "/home/me", found("/nonexistent/path"));
    assert!(result.is_err());
    assert!(result.unwrap_err().contains("does not exist"));
}

#[test]
fn validate_repo_path_not_a_dir() {
    let result = validate_repo_path("/etc/hostname", "/home/me", PathKind::Other);
    assert!(result.is_err());
    assert!(result.unwrap_err().contains("Not a directory"));
}

#[test]
fn a_valid_path_has_the_home_directory_in_place() {
    assert_eq!(
        validate_repo_path("~/code", "/home/me", PathKind::Directory).unwrap(),
        "/home/me/code"
    );
}

// Fetching

#[test]
fn successful_fetch_reports_fetched() {
    let mut world = World::new();
    assert!(matches!(
        world.fetch("main", FetchPolicy::Required).unwrap(),
        FetchOutcome::Fetched
    ));
    assert_eq!(world.calls.len(), 1, "no classification needed");
}

#[test]
fn missing_origin_remote_is_not_retried() {
    let mut world = World::new()
        .on("fetch", fail("no such remote"))
        .on("get-url", fail("no origin"));
    let outcome = world.fetch("main", FetchPolicy::Required).unwrap();
    let FetchOutcome::NoOriginRef(warning) = outcome else {
        panic!("expected NoOriginRef");
    };
    assert!(warning.contains("origin remote"), "got: {warning}");
    assert_eq!(
        world.calls.len(),
        2,
        "one fetch, one classification — no retries: {:?}",
        world.calls
    );
}

#[test]
fn an_unrunnable_remote_probe_is_treated_as_unreachable_not_as_a_missing_ref() {
    let mut world = World::new()
        .on("fetch", fail("Could not resolve host"))
        .on("get-url", not_run("git: command not found"))
        .on("fetch", fail("Could not resolve host"))
        .on("fetch", fail("Could not resolve host"));
    let err = world
        .fetch("main", FetchPolicy::Required)
        .expect_err("an unidentified failure must abort, not fall back to local");
    assert!(err.contains("Could not reach origin"), "got: {err}");
    assert_eq!(
        world.calls.len(),
        4,
        "the probe short-circuits ls-remote, then the fetch is retried: {:?}",
        world.calls
    );
}

#[test]
fn branch_absent_from_origin_is_not_retried() {
    let mut world = World::new()
        .on("fetch", fail("couldn't find remote ref"))
        .on("ls-remote", fail_with_code(2, ""));
    let outcome = world.fetch("nosuch", FetchPolicy::Required).unwrap();
    let FetchOutcome::NoOriginRef(warning) = outcome else {
        panic!("expected NoOriginRef");
    };
    assert!(warning.contains("nosuch"), "got: {warning}");
    assert_eq!(world.calls.len(), 3, "no retries after a 404");
}

#[test]
fn unreachable_origin_is_retried_then_aborts() {
    let mut world = World::new()
        .on("fetch", fail("Could not resolve host"))
        .on("ls-remote", fail_with_code(128, ""))
        .on("fetch", fail("Could not resolve host"))
        .on("fetch", fail("Could not resolve host"));
    let err = world.fetch("main", FetchPolicy::Required).unwrap_err();
    assert!(err.contains("Could not reach origin"), "got: {err}");
    assert_eq!(
        world.calls.len(),
        5,
        "classify once, then retry the fetch: {:?}",
        world.calls
    );
}

#[test]
fn existing_ref_that_fails_to_fetch_aborts_rather_than_using_local() {
    let mut world = World::new()
        .on("fetch", fail("early EOF"))
        .on("fetch", fail("early EOF"))
        .on("fetch", fail("early EOF"));
    assert!(world.fetch("main", FetchPolicy::Required).is_err());
}

#[test]
fn fetch_succeeding_on_retry_reports_fetched() {
    let mut world = World::new()
        .on("fetch", fail("early EOF"))
        .on("ls-remote", fail_with_code(128, ""));
    assert!(matches!(
        world.fetch("main", FetchPolicy::Required).unwrap(),
        FetchOutcome::Fetched
    ));
}

#[test]
fn best_effort_reports_unreachable_instead_of_aborting() {
    let mut world = World::new().on("fetch", fail("Could not resolve host"));
    let outcome = world
        .fetch("main", FetchPolicy::BestEffort)
        .expect("a best-effort fetch never aborts the dispatch");
    let FetchOutcome::Unreachable(warning) = outcome else {
        panic!("expected Unreachable, got: {outcome:?}");
    };
    assert!(warning.contains("main"), "got: {warning}");
}

#[test]
fn best_effort_spends_exactly_one_subprocess_on_a_failure() {
    let mut world = World::new().on("fetch", fail("Could not resolve host"));
    let _ = world.fetch("main", FetchPolicy::BestEffort);
    assert_eq!(
        world.calls.len(),
        1,
        "no classification probe and no retries: {:?}",
        world.calls
    );
}

#[test]
fn best_effort_does_not_classify_a_missing_branch() {
    let mut world = World::new().on("fetch", fail("couldn't find remote ref nosuch"));
    let outcome = world.fetch("nosuch", FetchPolicy::BestEffort).unwrap();
    assert!(
        matches!(outcome, FetchOutcome::Unreachable(_)),
        "got: {outcome:?}"
    );
    assert_eq!(world.calls.len(), 1, "no ls-remote probe");
}

#[test]
fn best_effort_still_fetches_successfully() {
    let mut world = World::new();
    assert!(matches!(
        world.fetch("main", FetchPolicy::BestEffort).unwrap(),
        FetchOutcome::Fetched
    ));
    assert_eq!(world.calls.len(), 1);
}

#[test]
fn a_retry_waits_and_the_first_try_does_not() {
    let mut world = World::new().on("fetch", fail("x")).on("ls-remote", fail("x"));
    world.fetch("main", FetchPolicy::Required).unwrap();
    let pauses: Vec<u64> = world
        .asked
        .iter()
        .map(|action| match action {
            Action::Run(command) => command.pause_millis,
            _ => panic!("{action:?}"),
        })
        .collect();
    assert_eq!(pauses, vec![0, 0, 0, 500]);
}

// The start point

fn counts(ahead: u32, behind: u32) -> Reply {
    ok_with_stdout(&format!("{ahead}\t{behind}\n"))
}

fn remote(base: &str) -> StartPoint {
    StartPoint::Remote {
        base: base.to_string(),
    }
}

fn local(base: &str) -> StartPoint {
    StartPoint::Local {
        base: base.to_string(),
    }
}

#[test]
fn local_wins_when_it_holds_commits_origin_lacks() {
    let mut world = World::new().on("rev-list", counts(3, 0));
    assert_eq!(world.select("main"), local("main"));
    assert_eq!(world.calls[0].1.last().unwrap(), "main...origin/main");
}

#[test]
fn origin_wins_when_local_is_behind() {
    let mut world = World::new().on("rev-list", counts(0, 2));
    assert_eq!(world.select("main"), remote("main"));
}

#[test]
fn origin_wins_when_the_two_are_level() {
    let mut world = World::new().on("rev-list", counts(0, 0));
    assert_eq!(world.select("main"), remote("main"));
}

#[test]
fn diverged_takes_local_silently() {
    let mut world = World::new().on("rev-list", counts(3, 2));
    assert_eq!(world.select("main"), local("main"));
}

#[test]
fn unmeasurable_falls_to_origin_not_local() {
    let mut world = World::new().on("rev-list", fail("unknown revision"));
    assert_eq!(world.select("develop"), remote("develop"));
}

#[test]
fn an_answer_that_is_no_two_numbers_says_nothing() {
    for stdout in ["", "3", "3 x", "-3 0", "1 2 3"] {
        assert_eq!(
            start_point_for(&ok_with_stdout(stdout), "main"),
            remote("main"),
            "{stdout:?}"
        );
    }
}

#[test]
fn remote_start_point_refs_origin_and_keeps_the_bare_base() {
    let sp = StartPoint::Remote {
        base: "develop".to_string(),
    };
    assert_eq!(sp.git_ref(), "origin/develop");
    assert_eq!(sp.base(), "develop");
}

#[test]
fn local_start_point_refs_the_bare_branch() {
    let sp = StartPoint::Local {
        base: "develop".to_string(),
    };
    assert_eq!(sp.git_ref(), "develop");
    assert_eq!(sp.base(), "develop");
}

#[test]
fn rebase_preamble_with_base_branch() {
    let sp = StartPoint::Remote {
        base: "99-prev-task".to_string(),
    };
    let preamble = reused_rebase_preamble(&sp);
    assert!(
        preamble.contains("git fetch origin 99-prev-task"),
        "should fetch the base branch first, got: {preamble}"
    );
    assert!(
        preamble.contains("git rebase origin/99-prev-task"),
        "should rebase onto the fetched origin ref, got: {preamble}"
    );
    assert!(
        !preamble.contains("origin/main"),
        "should not reference origin/main"
    );
}

#[test]
fn rebase_preamble_uses_given_target() {
    let sp = StartPoint::Remote {
        base: "develop".to_string(),
    };
    let preamble = reused_rebase_preamble(&sp);
    assert!(
        preamble.contains("git fetch origin develop"),
        "should fetch the given target, got: {preamble}"
    );
    assert!(
        preamble.contains("git rebase origin/develop"),
        "should rebase onto origin/<given target>, got: {preamble}"
    );
    assert!(
        !preamble.contains("origin/main"),
        "should not contain origin/main"
    );
}

// Provisioning

const REPO: &str = "/code/repo";

#[test]
fn provision_max_subprocess_calls_matches_the_worst_case_shape() {
    let mut world = World::with_repo(REPO)
        .on("fetch", fail("early EOF"))
        .on("ls-remote", fail_with_code(128, ""));
    for _ in 2..FETCH_MAX_ATTEMPTS {
        world = world.on("fetch", fail("early EOF"));
    }
    world.provision(&make_task(REPO), branch("main")).unwrap();
    assert_eq!(
        world.index_of("add") + 1,
        PROVISION_MAX_SUBPROCESS_CALLS as usize,
        "PROVISION_MAX_SUBPROCESS_CALLS must match the real worst-case number \
         of SUBPROCESS_TIMEOUT-bounded calls provision_worktree can issue"
    );
}

#[test]
fn provision_worktree_never_measures_a_pr_head_branch() {
    let mut world = World::with_repo(REPO);
    let result = world
        .provision(&make_task(REPO), pr_head("feature-x"))
        .unwrap();
    assert!(
        world.count("rev-list") == 0,
        "a PR head branch must never be compared against a local ref: {:?}",
        world.calls
    );
    assert_eq!(result.start_point, Some(remote("feature-x")));
}

#[test]
fn provision_worktree_creates_new_when_dir_missing() {
    let mut world = World::with_repo(REPO);
    let result = world.provision(&make_task(REPO), None).unwrap();
    let add = world.index_of("add");
    assert_eq!(world.calls[add].0, "git");
    assert!(world.calls[add].1.contains(&"worktree".to_string()));
    assert!(
        world.calls[..add]
            .iter()
            .all(|(_, args)| args.contains(&"prune".to_string())),
        "nothing but tidying up comes before it: {:?}",
        world.calls
    );
    assert_eq!(world.calls[add + 2].0, "tmux");
    assert_eq!(world.calls[add + 2].1[0], "new-window");

    let expected_path = format!("{REPO}/.worktrees/42-fix-bug");
    assert_eq!(result.worktree_path, expected_path);
    assert_eq!(result.tmux_window, "task-42");
}

#[test]
fn provision_worktree_path_is_unique_per_task_id_even_for_identical_titles() {
    let derive = |id: i64| {
        let mut task = make_task(REPO);
        task.id = TaskId(id);
        task.title = "Same title".to_string();
        World::with_repo(REPO)
            .provision(&task, None)
            .unwrap()
            .worktree_path
    };

    let first = derive(7);
    let second = derive(8);

    assert_eq!(first, format!("{REPO}/.worktrees/7-same-title"));
    assert_eq!(second, format!("{REPO}/.worktrees/8-same-title"));
    assert_ne!(
        first, second,
        "identical titles must still yield distinct worktrees"
    );
}

#[test]
fn provision_worktree_skips_git_when_dir_exists() {
    let mut world = World::with_worktree(REPO, "42-fix-bug");
    let result = world.provision(&make_task(REPO), None).unwrap();
    assert!(
        world.calls.iter().all(|(prog, _)| prog != "git"),
        "git should be skipped"
    );
    assert_eq!(world.calls[1].1[0], "new-window");
    assert_eq!(
        result.worktree_path,
        format!("{REPO}/.worktrees/42-fix-bug")
    );
}

#[test]
fn provision_worktree_reports_reused_worktree_false_when_dir_missing() {
    let result = World::with_repo(REPO)
        .provision(&make_task(REPO), None)
        .unwrap();
    assert!(
        !result.reused_worktree,
        "a freshly created worktree directory must report reused_worktree == false"
    );
}

#[test]
fn provision_worktree_reports_reused_worktree_true_when_dir_exists() {
    let result = World::with_worktree(REPO, "42-fix-bug")
        .provision(&make_task(REPO), None)
        .unwrap();
    assert!(
        result.reused_worktree,
        "a pre-existing worktree directory must report reused_worktree == true"
    );
}

#[test]
fn provision_worktree_with_base_branch_passes_start_point() {
    let mut world = World::with_repo(REPO);
    let result = world
        .provision(&make_task(REPO), branch("99-prev-task"))
        .unwrap();
    assert_eq!(world.calls[0].0, "git");
    assert!(world.calls[0].1.contains(&"fetch".to_string()));
    assert!(world.calls[0].1.contains(&"99-prev-task".to_string()));
    let git_args = &world.calls[world.index_of("add")].1;
    assert_eq!(
        git_args.last().unwrap(),
        "origin/99-prev-task",
        "base branch should be origin/99-prev-task as last git arg, got: {git_args:?}"
    );
    assert_eq!(
        result.worktree_path,
        format!("{REPO}/.worktrees/42-fix-bug")
    );
}

#[test]
fn provision_worktree_fetches_origin_before_create() {
    let mut world = World::with_repo(REPO);
    world.provision(&make_task(REPO), branch("main")).unwrap();
    assert_eq!(world.calls[0].0, "git");
    assert!(
        world.calls[0].1.contains(&"fetch".to_string()),
        "expected fetch, got: {:?}",
        world.calls[0].1
    );
    assert!(world.calls[0].1.contains(&"origin".to_string()));
    assert!(world.calls[0].1.contains(&"main".to_string()));
    let add = &world.calls[world.index_of("add")];
    assert_eq!(add.0, "git");
    assert!(add.1.contains(&"worktree".to_string()));
    assert_eq!(
        add.1.last().unwrap(),
        "origin/main",
        "worktree add should use origin/main as start point, got: {:?}",
        add.1
    );
}

#[test]
fn provision_worktree_fetch_failure_falls_back_to_local_without_retry() {
    let mut world = World::with_repo(REPO)
        .on("fetch", fail("fatal: couldn't find remote ref main"))
        .on("ls-remote", fail_with_code(2, ""));
    let result = world.provision(&make_task(REPO), branch("main")).unwrap();
    assert_eq!(
        world.count("fetch"),
        1,
        "a 404-classified fetch failure must not be retried, got: {:?}",
        world.calls
    );
    let add = &world.calls[world.index_of("add")];
    assert!(add.1.contains(&"worktree".to_string()));
    assert_eq!(
        add.1.last().unwrap(),
        "main",
        "fallback should use local main, got: {:?}",
        world.calls
    );
    let warning = result
        .fetch_warning
        .expect("expected a fetch_warning when there is no origin ref");
    assert!(
        warning.contains("main"),
        "warning should mention the base branch, got: {warning}"
    );
}

#[test]
fn provision_worktree_pr_head_missing_from_origin_aborts_rather_than_using_local() {
    let mut world = World::with_repo(REPO)
        .on("fetch", fail("fatal: couldn't find remote ref feature-x"))
        .on("ls-remote", fail_with_code(2, ""));
    let err = world
        .provision(&make_task(REPO), pr_head("feature-x"))
        .unwrap_err();
    assert!(
        err.contains("feature-x"),
        "error should name the missing branch, got: {err}"
    );
    assert!(
        world.count("worktree") == 0,
        "must not create a worktree from a stale local branch: {:?}",
        world.calls
    );
    assert!(
        !world.runs_tmux(),
        "must not open a tmux window when the review has no safe ref to base on: {:?}",
        world.calls
    );
}

#[test]
fn provision_worktree_retries_fetch_before_falling_back() {
    let mut world = World::with_repo(REPO)
        .on("fetch", fail("early EOF"))
        .on("ls-remote", fail_with_code(128, ""))
        .on("fetch", fail("early EOF"));
    let result = world.provision(&make_task(REPO), branch("main")).unwrap();
    assert_eq!(
        world.count("fetch"),
        FETCH_MAX_ATTEMPTS as usize,
        "expected 2 failures + 1 success, i.e. the full budget, got: {:?}",
        world.calls
    );
    assert_eq!(
        world.calls[world.index_of("add")].1.last().unwrap(),
        "origin/main",
        "should use origin/main once fetch eventually succeeds, got: {:?}",
        world.calls
    );
    assert!(
        result.fetch_warning.is_none(),
        "no warning expected when fetch eventually succeeds"
    );
}

#[test]
fn provision_worktree_fetch_uses_custom_base_branch() {
    let mut world = World::with_repo(REPO);
    world.provision(&make_task(REPO), branch("develop")).unwrap();
    assert!(
        world.calls[0].1.contains(&"develop".to_string()),
        "fetch should use 'develop', got: {:?}",
        world.calls[0].1
    );
    assert_eq!(
        world.calls[world.index_of("add")].1.last().unwrap(),
        "origin/develop",
        "worktree add should use origin/develop, got: {:?}",
        world.calls
    );
}

#[test]
fn provision_worktree_still_fetches_when_dir_exists() {
    let mut world = World::with_worktree(REPO, "42-fix-bug");
    world.provision(&make_task(REPO), branch("main")).unwrap();
    assert_eq!(
        world.calls[0].0, "git",
        "first call should be git, got: {:?}",
        world.calls
    );
    assert!(
        world.calls[0].1.contains(&"fetch".to_string()),
        "fetch should still run when the worktree dir already exists, got: {:?}",
        world.calls
    );
    assert!(
        world.count("worktree") == 0,
        "git worktree add should be skipped when the dir already exists, got: {:?}",
        world.calls
    );
}

const UNREACHABLE: &str = "fatal: unable to access 'origin': network is unreachable";

#[test]
fn provision_worktree_reuse_survives_an_unreachable_origin() {
    let mut world = World::with_worktree(REPO, "42-fix-bug").on("fetch", fail(UNREACHABLE));
    let result = world
        .provision(&make_task(REPO), branch("main"))
        .expect("a reused worktree needs no network, so an unreachable origin must not abort");
    assert_eq!(
        result.start_point,
        Some(local("main")),
        "an unfetchable origin/<base> must not be the rebase target: it would replay \
         local <base>'s unpushed commits under new SHAs"
    );
    let warning = result
        .fetch_warning
        .expect("the agent must be told in its prompt that origin could not be reached");
    assert!(
        warning.contains("main"),
        "the warning should name the base branch, got: {warning}"
    );
    assert!(
        world.runs_tmux(),
        "the agent's tmux window must still be created, got: {:?}",
        world.calls
    );
}

#[test]
fn provision_worktree_reuse_does_not_retry_or_probe_an_unreachable_origin() {
    let mut world = World::with_worktree(REPO, "42-fix-bug").on("fetch", fail(UNREACHABLE));
    world
        .provision(&make_task(REPO), branch("main"))
        .expect("reuse + unreachable origin must not abort");
    assert_eq!(
        world.count("fetch"),
        1,
        "the reuse path keeps origin fresh with a single best-effort attempt, never a \
         retry budget, got: {:?}",
        world.calls
    );
    assert!(
        world.count("ls-remote") == 0,
        "classifying the failure changes nothing on the reuse path, so the probe must \
         not be run, got: {:?}",
        world.calls
    );
}

#[test]
fn provision_worktree_reuse_of_a_pr_head_keeps_the_remote_start_point() {
    let mut world = World::with_worktree(REPO, "42-fix-bug").on("fetch", fail(UNREACHABLE));
    let result = world
        .provision(&make_task(REPO), pr_head("feature-x"))
        .expect("a reused PR-review worktree already holds the PR's code");
    assert_eq!(
        result.start_point,
        Some(remote("feature-x")),
        "a PR head must stay pinned to origin/<head>, never fall back to a local branch \
         of the same name"
    );
    assert!(
        result.fetch_warning.is_some(),
        "the agent must be told its rebase target may be unreachable"
    );
}

#[test]
fn provision_worktree_fresh_still_spends_the_full_budget_before_aborting() {
    let mut world = World::with_repo(REPO)
        .on("fetch", fail(UNREACHABLE))
        .on("ls-remote", fail_with_code(128, ""))
        .on("fetch", fail(UNREACHABLE))
        .on("fetch", fail(UNREACHABLE));
    let msg = world
        .provision(&make_task(REPO), branch("main"))
        .expect_err("a fresh worktree must not be branched off a stale local ref");
    assert_eq!(
        world.count("fetch"),
        3,
        "the fresh path still retries to exhaustion, got: {:?}",
        world.calls
    );
    assert!(
        world.count("ls-remote") > 0,
        "the fresh path still classifies, because 404 and infra diverge there: {:?}",
        world.calls
    );
    assert!(
        !world.runs_tmux(),
        "aborting must happen before any tmux window is created, got: {:?}",
        world.calls
    );
    assert!(
        msg.contains("network") || msg.contains("connectivity"),
        "the error should point at what to check, got: {msg}"
    );
    assert!(
        msg.contains("retry") || msg.contains("dispatch again") || msg.contains("try again"),
        "the error should say what to do once connectivity is back, got: {msg}"
    );
    assert_eq!(world.kind(&format!("{REPO}/.worktrees")), PathKind::Absent);
}

#[test]
fn provision_worktree_nonexistent_repo_path_returns_error_without_creating_dir() {
    let mut world = World::new();
    let result = world.provision(&make_task("/gone"), None);
    assert!(
        result.is_err(),
        "nonexistent repo_path should return an error"
    );
    assert!(
        world.disk.is_empty(),
        "provision_worktree must not create directories for nonexistent repo_path"
    );
    assert!(world.calls.is_empty());
}

#[test]
fn provision_worktree_git_add_fails_returns_error() {
    let mut world = World::with_repo(REPO).on("add", fail("fatal: not a git repository"));
    let result = world.provision(&make_task(REPO), None);
    assert!(result.is_err(), "git worktree add failure should propagate");
}

#[test]
fn provision_worktree_rolls_back_the_worktree_when_a_later_step_fails() {
    let mut world = World::with_repo(REPO).on("new-window", fail("no server running"));
    let result = world.provision(&make_task(REPO), None);
    assert!(result.is_err(), "tmux failure must abort provisioning");
    assert!(
        worktree_remove_call(&world.calls).is_some(),
        "the created worktree must be removed on the failure path, got: {:?}",
        world.calls
    );
}

#[test]
fn provision_worktree_refused_for_a_duplicate_name_does_not_kill_the_live_window() {
    let mut world = World::with_repo(REPO)
        .with_window("board")
        .with_window("task-42");
    let result = world.provision(&make_task(REPO), None);
    assert!(
        result.is_err(),
        "a duplicate window name must abort a dispatch"
    );
    assert!(
        world.count("kill-window") == 0,
        "the rollback must not kill a window this attempt did not open, got: {:?}",
        world.calls
    );
    assert!(
        worktree_remove_call(&world.calls).is_some(),
        "the worktree this attempt created is still rolled back, got: {:?}",
        world.calls
    );
}

#[test]
fn provision_worktree_does_not_remove_a_reused_worktree_on_failure() {
    let mut world =
        World::with_worktree(REPO, "42-fix-bug").on("new-window", fail("no server running"));
    let result = world.provision(&make_task(REPO), None);
    assert!(result.is_err(), "tmux failure must abort provisioning");
    assert!(
        worktree_remove_call(&world.calls).is_none(),
        "a reused (pre-existing) worktree must never be removed on failure, got: {:?}",
        world.calls
    );
    assert_eq!(
        world.kind(&format!("{REPO}/.worktrees/42-fix-bug")),
        PathKind::Directory
    );
}

#[test]
fn provision_worktree_kills_git_fetch_on_timeout_and_aborts() {
    let mut world = World::with_repo(REPO)
        .on("fetch", not_run("git timed out and was killed"))
        .on("fetch", not_run("git timed out and was killed"))
        .on("fetch", not_run("git timed out and was killed"));
    let result = world.provision(&make_task(REPO), branch("main"));
    assert!(
        result.is_err(),
        "an unreachable origin must abort provisioning rather than fall back to local, got: {result:?}"
    );
    assert!(
        !world.runs_tmux(),
        "aborting must happen before any tmux window is created, got: {:?}",
        world.calls
    );
    for action in &world.asked {
        if let Action::Run(command) = action {
            assert!(command.bounded, "{command:?}");
        }
    }
}

#[test]
fn provision_worktree_kills_git_worktree_add_on_timeout() {
    let mut world = World::with_repo(REPO).on("add", not_run("git timed out and was killed"));
    let result = world.provision(&make_task(REPO), None);
    assert!(
        result.is_err(),
        "expected error when git worktree add times out"
    );
    let msg = result.unwrap_err();
    assert!(
        msg.contains("timed out") || msg.contains("killed"),
        "expected timeout in error chain, got: {msg}"
    );
}

#[test]
fn a_base_that_is_nowhere_is_refused_by_name() {
    let mut world = World::with_repo(REPO)
        .on("fetch", fail("x"))
        .on("ls-remote", fail_with_code(2, ""))
        .on("rev-parse", fail("unknown revision"));
    let error = world
        .provision(&make_task(REPO), branch("main"))
        .unwrap_err();
    assert!(error.contains("main"), "{error}");
    assert_eq!(world.count("add"), 0);
}

#[test]
fn what_is_in_the_way_is_refused() {
    let mut world = World::with_repo(REPO);
    world
        .disk
        .insert(format!("{REPO}/.worktrees/42-fix-bug"), PathKind::Other);
    let error = world.provision(&make_task(REPO), None).unwrap_err();
    assert_eq!(
        error,
        "refusing to dispatch into /code/repo/.worktrees/42-fix-bug: something is already there, \
         and it is not a directory"
    );
    assert!(world.calls.is_empty());
}

#[test]
fn the_paths_of_a_task() {
    let mut task = make_task("/r/");
    task.title = "  Fix: the *BUG* in  v2! ".to_string();
    let paths = worktree_paths(&task, "/r".to_string());
    assert_eq!(paths.worktree_name, "42-fix-the-bug-in-v2");
    assert_eq!(paths.worktree_path, "/r/.worktrees/42-fix-the-bug-in-v2");
    assert_eq!(paths.tmux_window, "task-42");
}

#[test]
fn a_fresh_worktree_can_be_torn_down_again() {
    let mut world = World::with_repo(REPO);
    let result = world.provision(&make_task(REPO), None).unwrap();
    world
        .disk
        .insert(result.worktree_path.clone(), PathKind::Directory);
    world
        .teardown(REPO, Some(&result.worktree_path), Some(&result.tmux_window))
        .unwrap();
    assert_eq!(world.kind(&result.worktree_path), PathKind::Absent);
    assert_eq!(world.kind(REPO), PathKind::Directory);
}

// Teardown

#[test]
fn cleanup_kills_window_and_removes_worktree() {
    let mut world = World::new().with_window("task-42");
    world
        .teardown("/repo", Some("/repo/.worktrees/42-fix-bug"), Some("task-42"))
        .unwrap();
    assert_eq!(world.calls[0].0, "tmux");
    assert_eq!(world.calls[0].1[0], "list-windows");
    assert_eq!(world.calls[1].0, "tmux");
    assert_eq!(world.calls[1].1[0], "kill-window");
    assert_eq!(world.calls[2].0, "git");
    assert!(world.calls[2].1.contains(&"-C".to_string()));
    assert!(world.calls[2].1.contains(&"remove".to_string()));
}

#[test]
fn cleanup_skips_kill_when_window_not_found() {
    let mut world = World::new();
    world
        .teardown("/repo", Some("/repo/.worktrees/42-fix-bug"), Some("task-42"))
        .unwrap();
    assert!(
        world.count("kill-window") == 0,
        "kill-window should not be called when window not found, got: {:?}",
        world.calls
    );
}

#[test]
fn teardown_task_has_window_runner_error_warns_and_continues() {
    let mut world = World::new()
        .with_window("task-42")
        .on("list-windows", not_run("tmux not installed"));
    world
        .teardown("/repo", Some("/repo/.worktrees/42-fix-bug"), Some("task-42"))
        .unwrap();
    assert!(
        world.count("kill-window") == 0,
        "kill-window must not run when has_window errors, got: {:?}",
        world.calls
    );
    assert!(
        world.count("remove") == 1,
        "git worktree remove must still run after has_window error, got: {:?}",
        world.calls
    );
}

#[test]
fn cleanup_succeeds_when_worktree_already_removed() {
    let mut world = World::new().on(
        "remove",
        fail("fatal: '/repo/.worktrees/42-fix-bug' is not a working tree"),
    );
    world
        .teardown("/repo", Some("/repo/.worktrees/42-fix-bug"), None)
        .unwrap();
}

#[test]
fn teardown_task_kills_window_when_there_is_no_worktree() {
    let mut world = World::new().with_window("task-42");
    world.teardown("/repo", None, Some("task-42")).unwrap();
    assert!(
        world.count("kill-window") == 1,
        "the window must be killed even with no worktree, got: {:?}",
        world.calls
    );
    assert!(
        !world.calls.iter().any(|c| c.0 == "git"),
        "no git calls expected with no worktree — no worktree means no branch \
         either, got: {:?}",
        world.calls
    );
}

#[test]
fn teardown_task_with_neither_worktree_nor_window_runs_no_commands() {
    let mut world = World::new();
    world.teardown("/repo", None, None).unwrap();
    assert!(
        world.asked.is_empty(),
        "a stateless row must run no commands, got: {:?}",
        world.asked
    );
}

#[test]
fn teardown_task_no_tmux_window_arg_skips_tmux() {
    let mut world = World::new();
    world
        .teardown("/repo", Some("/repo/.worktrees/42-fix-bug"), None)
        .unwrap();
    assert!(
        !world.runs_tmux(),
        "no tmux calls expected when tmux_window is None, got: {:?}",
        world.calls
    );
    assert!(world.calls[0].1.contains(&"remove".to_string()));
}

fn leftover_worktree(slug: &str) -> (World, String, String) {
    let mut world = World::with_worktree(REPO, slug);
    let worktree = format!("{REPO}/.worktrees/{slug}");
    world
        .disk
        .insert(format!("{worktree}/target/debug/huge.rlib"), PathKind::Other);
    world
        .disk
        .insert(format!("{worktree}/README.md"), PathKind::Other);
    (world, REPO.to_string(), worktree)
}

#[test]
fn teardown_task_other_remove_failure_propagates_when_the_directory_survives() {
    let (world, repo, worktree) = leftover_worktree("42-fix-bug");
    let mut world = world.on("remove", fail("fatal: some unexpected git failure"));
    world.undeletable = Some("Permission denied".to_string());
    let failure = world.teardown(&repo, Some(&worktree), None).unwrap_err();
    let msg = failure.to_message();
    assert!(
        msg.contains("git worktree remove failed"),
        "expected 'git worktree remove failed' in error chain, got: {msg}"
    );
}

#[test]
fn teardown_succeeds_when_git_fails_but_nothing_is_left_on_disk() {
    let (world, repo, worktree) = leftover_worktree("42-fix-bug");
    let mut world = world.on("remove", fail("fatal: some unexpected git failure"));
    world.teardown(&repo, Some(&worktree), None).unwrap();
    assert_eq!(world.kind(&worktree), PathKind::Absent);
    assert!(
        world.count("-D") == 1,
        "step 3 must still run for a released worktree, got: {:?}",
        world.calls
    );
}

#[test]
fn teardown_deletes_the_directory_when_git_cannot_be_run_at_all() {
    let (world, repo, worktree) = leftover_worktree("42-fix-bug");
    let mut world = world.on(
        "remove",
        not_run("No such file or directory (os error 2)"),
    );
    world.teardown(&repo, Some(&worktree), None).unwrap();
    assert_eq!(world.kind(&worktree), PathKind::Absent);
}

#[test]
fn a_git_failure_prunes_the_admin_record_before_deleting_the_branch() {
    let (world, repo, worktree) = leftover_worktree("42-fix-bug");
    let mut world = world.on(
        "remove",
        fail("fatal: validation failed, cannot remove working tree"),
    );
    world.teardown(&repo, Some(&worktree), None).unwrap();
    let prune = world.index_of("prune");
    let branch = world.index_of("-D");
    assert!(
        prune < branch,
        "prune must precede the branch delete, got: {:?}",
        world.calls
    );
}

#[test]
fn a_successful_git_removal_does_not_prune() {
    let (mut world, repo, worktree) = leftover_worktree("42-fix-bug");
    world.teardown(&repo, Some(&worktree), None).unwrap();
    assert!(
        world.count("prune") == 0,
        "no prune expected on the success path, got: {:?}",
        world.calls
    );
}

#[test]
fn an_unreadable_worktree_path_is_not_reported_as_released() {
    let (mut world, repo, worktree) = leftover_worktree("42-fix-bug");
    world.unreadable = Some("Permission denied".to_string());
    let failure = world.teardown(&repo, Some(&worktree), None).unwrap_err();
    assert_eq!(failure.worktree_left.as_deref(), Some(worktree.as_str()));
    assert!(
        failure
            .to_message()
            .contains("failed to inspect leftover worktree"),
        "expected the stat failure in the error chain, got: {failure:?}"
    );
}

#[test]
fn teardown_obeys_a_lock_and_deletes_nothing() {
    let (world, repo, worktree) = leftover_worktree("42-fix-bug");
    let mut world = world.on(
        "remove",
        fail("fatal: cannot remove a locked working tree;\nuse 'remove -f -f' to override or unlock first"),
    );
    let failure = world.teardown(&repo, Some(&worktree), None).unwrap_err();
    assert_eq!(failure.worktree_left.as_deref(), Some(worktree.as_str()));
    assert_eq!(
        world.kind(&format!("{worktree}/target/debug/huge.rlib")),
        PathKind::Other,
        "a locked worktree must be left exactly as it was"
    );
}

#[test]
fn teardown_task_kill_window_failure_propagates() {
    let mut world = World::new()
        .with_window("task-42")
        .on("kill-window", fail("can't find window"));
    let err = world
        .teardown("/repo", Some("/repo/.worktrees/42-fix-bug"), Some("task-42"))
        .unwrap_err();
    assert!(
        err.to_message().contains("failed to kill tmux window"),
        "expected kill-window failure in error chain, got: {err:?}"
    );
    assert!(
        worktree_remove_call(&world.calls).is_none(),
        "git worktree remove must not run after kill-window failure, got: {:?}",
        world.calls
    );
}

#[test]
fn branch_from_worktree_returns_last_path_component() {
    assert_eq!(
        branch_from_worktree("/repo/.worktrees/42-fix-bug"),
        Some("42-fix-bug".to_string())
    );
}

#[test]
fn branch_from_worktree_strips_trailing_slash() {
    assert_eq!(
        branch_from_worktree("/repo/.worktrees/42-fix-bug/"),
        Some("42-fix-bug".to_string())
    );
}

#[test]
fn branch_from_worktree_returns_none_for_empty() {
    assert_eq!(branch_from_worktree(""), None);
}

#[test]
fn branch_from_worktree_returns_none_for_root() {
    assert_eq!(branch_from_worktree("/"), None);
}

#[test]
fn teardown_deletes_the_directory_git_left_behind() {
    let (mut world, repo, worktree) = leftover_worktree("42-fix-bug");
    world.teardown(&repo, Some(&worktree), None).unwrap();
    assert_eq!(
        world.kind(&worktree),
        PathKind::Absent,
        "teardown must leave nothing at the worktree path"
    );
}

#[test]
fn teardown_deletes_the_directory_when_git_says_it_is_not_a_working_tree() {
    let (world, repo, worktree) = leftover_worktree("42-fix-bug");
    let mut world = world.on(
        "remove",
        fail("fatal: '.worktrees/42-fix-bug' is not a working tree"),
    );
    world.teardown(&repo, Some(&worktree), None).unwrap();
    assert_eq!(
        world.kind(&worktree),
        PathKind::Absent,
        "an already-unregistered worktree must still have its directory removed"
    );
}

#[test]
fn teardown_of_an_absent_directory_is_success() {
    let mut world = World::with_repo(REPO);
    let worktree = format!("{REPO}/.worktrees/42-fix-bug");
    world.teardown(REPO, Some(&worktree), None).unwrap();
    assert_eq!(world.kind(&worktree), PathKind::Absent);
}

#[test]
fn teardown_unlinks_a_symlinked_worktree_path_without_deleting_its_target() {
    let mut world = World::with_repo(REPO);
    let worktree = format!("{REPO}/.worktrees/42-fix-bug");
    world.disk.insert(worktree.clone(), PathKind::Link);
    world.teardown(REPO, Some(&worktree), None).unwrap();
    assert_eq!(
        world.kind(&worktree),
        PathKind::Absent,
        "the symlink at the worktree path must be unlinked"
    );
    assert!(
        world.asked.contains(&Action::Unlink(worktree)),
        "the link goes as a link: {:?}",
        world.asked
    );
}

#[test]
fn teardown_refuses_to_delete_a_path_outside_the_worktrees_directory() {
    let mut world = World::with_repo(REPO);
    let src = format!("{REPO}/src");
    world.disk.insert(src.clone(), PathKind::Directory);
    let failure = world.teardown(REPO, Some(&src), None).unwrap_err();
    assert_eq!(
        failure.worktree_left.as_deref(),
        Some(src.as_str()),
        "the refused path must still be reported as left on disk"
    );
    assert_eq!(
        world.kind(&src),
        PathKind::Directory,
        "a path outside .worktrees must not be deleted"
    );
}

#[test]
fn teardown_refuses_to_delete_the_worktrees_directory_itself() {
    let mut world = World::with_worktree(REPO, "7-other-task");
    let worktrees = format!("{REPO}/.worktrees");
    world.disk.insert(worktrees.clone(), PathKind::Directory);
    let failure = world.teardown(REPO, Some(&worktrees), None).unwrap_err();
    assert!(failure.worktree_left.is_some());
    assert_eq!(
        world.kind(&format!("{worktrees}/7-other-task")),
        PathKind::Directory,
        "another task's live worktree must not be collateral"
    );
}

#[test]
fn teardown_refuses_a_traversal_out_of_the_worktrees_directory() {
    let mut world = World::with_repo(REPO);
    let src = format!("{REPO}/src");
    world.disk.insert(src.clone(), PathKind::Directory);
    let escaping = format!("{REPO}/.worktrees/../src");
    let failure = world.teardown(REPO, Some(&escaping), None).unwrap_err();
    assert!(failure.worktree_left.is_some());
    assert_eq!(
        world.kind(&src),
        PathKind::Directory,
        "a `..` traversal must not escape the bound"
    );
}

#[test]
fn a_relative_traversal_is_refused_too() {
    let mut world = World::new();
    world
        .disk
        .insert("../../etc".to_string(), PathKind::Directory);
    let failure = world
        .teardown("/work", Some("../../etc"), None)
        .unwrap_err();
    assert_eq!(
        failure.to_message(),
        "refusing to delete leftover worktree /work/../../etc: it is not inside /work/.worktrees"
    );
}

#[test]
fn a_relative_spelling_lies_inside_only_as_it_is_written() {
    let mut world = World::new();
    let spelled = "../work/.worktrees/7-x";
    world
        .disk
        .insert(spelled.to_string(), PathKind::Directory);
    let failure = world.teardown("/work", Some(spelled), None).unwrap_err();
    assert_eq!(
        failure.to_message(),
        "refusing to delete leftover worktree /work/../work/.worktrees/7-x: \
         it is not inside /work/.worktrees"
    );
    let mut world = World::new();
    world
        .disk
        .insert(".worktrees/7-x".to_string(), PathKind::Directory);
    world
        .teardown("/work", Some(".worktrees/7-x"), None)
        .unwrap();
    assert!(world
        .asked
        .contains(&Action::RemoveTree("/work/.worktrees/7-x".to_string())));
}

#[test]
fn no_way_leads_out_of_the_worktrees_from_inside_them() {
    let around = Surroundings {
        home: "/home/me".to_string(),
        cwd: Some("/repo/.worktrees/7-x".to_string()),
    };
    let answers = vec![
        Answer::Ran(ok()),
        Answer::Found(PathKind::Directory),
    ];
    match teardown_task("/repo", Some("../../src"), None, &around, &answers, 0) {
        TeardownStep::Stuck(failure) => assert_eq!(
            failure.to_message(),
            "refusing to delete leftover worktree /repo/.worktrees/7-x/../../src: \
             it is not inside /repo/.worktrees"
        ),
        other => panic!("{other:?}"),
    }
}

#[test]
fn a_failed_delete_fails_teardown_and_reports_the_path() {
    let (mut world, repo, worktree) = leftover_worktree("42-fix-bug");
    world.undeletable = Some("Permission denied".to_string());
    let failure = world.teardown(&repo, Some(&worktree), None).unwrap_err();
    assert_eq!(
        failure.worktree_left.as_deref(),
        Some(worktree.as_str()),
        "a failed delete must report the worktree as still on disk"
    );
    assert!(
        failure
            .to_message()
            .contains("failed to delete leftover worktree"),
        "expected the delete failure in the error chain, got: {failure:?}"
    );
}

#[test]
fn a_window_is_opened_in_its_directory() {
    let mut world = World::new();
    let answer = world.perform(&Action::OpenWindow {
        window: "task-1".to_string(),
        dir: "/wt".to_string(),
    });
    assert_eq!(answer, Answer::Finished);
    assert_eq!(
        world.calls[1].1,
        vec!["new-window", "-d", "-n", "task-1", "-c", "/wt"]
    );
}

#[test]
fn a_second_window_of_a_name_is_refused() {
    let mut world = World::new().with_window("task-1");
    let answer = world.perform(&Action::OpenWindow {
        window: "task-1".to_string(),
        dir: "/wt".to_string(),
    });
    assert_eq!(
        answer,
        Answer::Failed("a tmux window named task-1 is already there".to_string())
    );
    assert_eq!(world.count("new-window"), 0);
}

// Finishing

fn on_branch(name: &str) -> World {
    World::new().on("rev-parse", ok_with_stdout(&format!("{name}\n")))
}

#[test]
fn finish_task_happy_path() {
    let mut world = on_branch("main");
    world.finish("main", None).unwrap();
    assert!(world.count("rebase") > 0);
    assert!(world.count("--ff-only") > 0);
    assert!(world.count("remove") == 0);
}

#[test]
fn finish_task_with_master_default_branch() {
    let mut world = on_branch("master");
    world.finish("master", None).unwrap();
    for step in ["pull", "rebase"] {
        assert!(
            world.calls[world.index_of(step)]
                .1
                .contains(&"master".to_string()),
            "{step:?} should target master, got: {:?}",
            world.calls
        );
    }
}

#[test]
fn finish_task_not_on_default_branch() {
    let mut world = on_branch("feature-branch");
    let err = world.finish("main", None).unwrap_err();
    assert!(matches!(err, FinishError::NotOnDefaultBranch { .. }));
    assert!(err.to_message().contains("feature-branch"));
}

#[test]
fn finish_task_rebase_conflict() {
    let mut world = on_branch("main").on("get-url", fail("no origin")).on(
        "rebase",
        fail("CONFLICT (content): Merge conflict in src/main.rs\nerror: could not apply\n"),
    );
    let err = world.finish("main", None).unwrap_err();
    assert!(
        matches!(
            err,
            FinishError::RebaseConflict { ref files, .. } if files == &["src/main.rs".to_string()]
        ),
        "expected RebaseConflict naming src/main.rs, got: {err:?}"
    );
    assert!(world
        .calls
        .last()
        .unwrap()
        .1
        .contains(&"--abort".to_string()));
    assert_eq!(
        err.to_message(),
        "Rebasing 42-fix-bug met conflicts: src/main.rs"
    );
}

#[test]
fn finish_task_pull_fails() {
    let mut world = on_branch("main").on("pull", fail("no route to host"));
    assert!(matches!(
        world.finish("main", None).unwrap_err(),
        FinishError::Other(_)
    ));
}

#[test]
fn finish_task_dirty_primary_worktree_returns_error_before_pull() {
    let mut world = on_branch("main").on("status", ok_with_stdout(" M src/unrelated.rs\n"));
    let err = world.finish("main", None).unwrap_err();
    assert!(
        matches!(err, FinishError::DirtyPrimaryWorktree { ref path, ref files }
            if path == "/repo" && files == &["src/unrelated.rs".to_string()]),
        "expected DirtyPrimaryWorktree naming /repo and src/unrelated.rs, got: {err:?}"
    );
    assert!(
        world.count("pull") + world.count("rebase") + world.count("--ff-only") == 0,
        "a dirty primary worktree must be reported before any pull/rebase/merge is attempted, got: {:?}",
        world.calls
    );
}

#[test]
fn finish_task_no_remote_skips_pull() {
    let mut world = on_branch("main").on("get-url", fail("no origin"));
    world.finish("main", None).unwrap();
    assert!(world.count("pull") == 0);
}

#[test]
fn finish_task_uses_explicit_base_branch_not_auto_detected() {
    let mut world = on_branch("develop").on("get-url", fail("no origin"));
    world.finish("develop", None).unwrap();
    assert!(
        world.count("symbolic-ref") == 0,
        "symbolic-ref must not be called when base_branch is explicit"
    );
    assert!(world.calls[world.index_of("rebase")]
        .1
        .contains(&"develop".to_string()));
}

#[test]
fn finish_task_rebase_other_failure_aborts_and_returns_other() {
    let mut world = on_branch("main")
        .on("get-url", fail("no origin"))
        .on("rebase", fail("fatal: invalid upstream"));
    let err = world.finish("main", None).unwrap_err();
    assert!(
        matches!(err, FinishError::Other(ref m) if m.contains("Rebase failed")),
        "non-conflict rebase failure should be FinishError::Other, got: {err:?}"
    );
    assert!(
        world
            .calls
            .last()
            .unwrap()
            .1
            .contains(&"--abort".to_string()),
        "rebase --abort must be invoked after a non-conflict rebase failure"
    );
}

#[test]
fn finish_task_ff_only_failure_returns_other() {
    let mut world = on_branch("main")
        .on("get-url", fail("no origin"))
        .on("--ff-only", fail("not possible"));
    let err = world.finish("main", None).unwrap_err();
    assert!(
        matches!(err, FinishError::Other(ref m) if m.contains("Fast-forward failed")),
        "ff-only failure should map to FinishError::Other, got: {err:?}"
    );
}

#[test]
fn finish_task_rev_parse_runner_error_returns_other() {
    let mut world = World::new().on("rev-parse", not_run("git not found"));
    let err = world.finish("main", None).unwrap_err();
    assert!(
        matches!(err, FinishError::Other(ref m) if m.contains("Failed to check current branch")),
        "rev-parse runner error should map to FinishError::Other, got: {err:?}"
    );
}

#[test]
fn finish_task_no_tmux_window_skips_tmux_entirely() {
    let mut world = on_branch("main").on("get-url", fail("no origin"));
    world.finish("main", None).unwrap();
    assert!(
        !world.runs_tmux(),
        "no tmux calls expected when tmux_window is None, got: {:?}",
        world.calls
    );
}

#[test]
fn a_finished_task_has_its_window_closed_last() {
    let mut world = on_branch("main").with_window("task-42");
    world.finish("main", Some("task-42")).unwrap();
    assert_eq!(
        world.calls.last().unwrap().1,
        vec!["kill-window", "-t", "task-42"]
    );
}

use dispatch::feed::exec::{paths_to_ask, resolve_base_branches};
use dispatch::feed::repos::resolve_repo_path;
use dispatch::git::{default_branch_query, detect_default_branch};
use dispatch::process::Reply;

fn exited(code: i32, stdout: &str, stderr: &str) -> Reply {
    Reply::Exited {
        code: Some(code),
        stdout: stdout.to_string(),
        stderr: stderr.to_string(),
    }
}

fn ask_all(paths: &Vec<String>, answer: impl Fn(&str) -> Reply) -> (Vec<String>, usize) {
    let replies: Vec<Reply> = paths_to_ask(paths).iter().map(|p| answer(p)).collect();
    let count = replies.len();
    (resolve_base_branches(paths, &replies), count)
}

fn always_fails(_: &str) -> Reply {
    exited(128, "", "not a git repo")
}

#[test]
fn empty_path_resolves_to_main_without_calling_runner() {
    let paths = vec!["".to_string(), "".to_string()];
    let (branches, asked) = ask_all(&paths, always_fails);
    assert_eq!(branches, vec!["main", "main"]);
    assert_eq!(asked, 0);
}

#[test]
fn known_path_resolves_to_configured_branch() {
    let paths = vec!["/repo/a".to_string()];
    let (branches, _) = ask_all(&paths, |path| {
        if path == "/repo/a" {
            exited(0, "refs/remotes/origin/develop\n", "")
        } else {
            exited(128, "", "unknown repo")
        }
    });
    assert_eq!(branches, vec!["develop"]);
}

#[test]
fn same_path_queried_only_once() {
    let paths = vec![
        "/repo".to_string(),
        "/repo".to_string(),
        "/repo".to_string(),
    ];
    let (_, asked) = ask_all(&paths, |_| exited(0, "refs/remotes/origin/main\n", ""));
    assert_eq!(asked, 1, "runner called more than once for the same path");
}

#[test]
fn unknown_path_falls_back_to_main() {
    let paths = vec!["/unknown/repo".to_string()];
    let (branches, _) = ask_all(&paths, always_fails);
    assert_eq!(branches, vec!["main"]);
}

#[test]
fn each_path_gets_its_own_branch() {
    let paths = vec![
        "/b".to_string(),
        "".to_string(),
        "/a".to_string(),
        "/b".to_string(),
    ];
    assert_eq!(paths_to_ask(&paths), vec!["/b", "/a"]);
    let (branches, _) = ask_all(&paths, |path| {
        exited(0, &format!("refs/remotes/origin/of{path}-x"), "")
    });
    assert_eq!(branches, vec!["b-x", "main", "a-x", "b-x"]);
}

#[test]
fn detect_default_branch_returns_remote_head_when_set() {
    let reply = exited(0, "refs/remotes/origin/master\n", "");
    assert_eq!(detect_default_branch(&reply), "master");
}

#[test]
fn detect_default_branch_falls_back_when_origin_head_missing() {
    let reply = exited(
        1,
        "",
        "fatal: ref refs/remotes/origin/HEAD is not a symbolic ref",
    );
    assert_eq!(detect_default_branch(&reply), "main");
}

#[test]
fn detect_default_branch_falls_back_when_runner_errors() {
    let reply = Reply::NotRun("git not on PATH".to_string());
    assert_eq!(detect_default_branch(&reply), "main");
}

#[test]
fn detect_default_branch_invokes_correct_git_command() {
    let command = default_branch_query("/some/repo");
    assert_eq!(command.program, "git");
    assert_eq!(
        command.args,
        vec![
            "-C".to_string(),
            "/some/repo".to_string(),
            "symbolic-ref".to_string(),
            "refs/remotes/origin/HEAD".to_string(),
        ]
    );
}

#[test]
fn resolve_repo_path_matches_directory_name() {
    let paths = vec![
        "/home/user/projects/frontend".to_string(),
        "/home/user/projects/backend".to_string(),
    ];
    assert_eq!(
        resolve_repo_path("org/backend", &paths),
        Some("/home/user/projects/backend".to_string()),
    );
}

#[test]
fn resolve_repo_path_returns_none_when_no_match() {
    let paths = vec!["/home/user/projects/frontend".to_string()];
    assert_eq!(resolve_repo_path("org/backend", &paths), None);
}

#[test]
fn resolve_repo_path_handles_empty_paths() {
    assert_eq!(resolve_repo_path("org/repo", &[]), None);
}

use std::cell::RefCell;

use dispatch::feed::cycle::{
    degraded_empty_emission, degraded_partial_emission, exec_feed_command, run_cycle, CycleAction,
    CycleHistory, CycleStep, EpicReading, FeedCycleOutcome, FeedOutput,
};
use dispatch::feed::entries::{FeedItemWithTarget, SyncMode};
use dispatch::feed::ingest::{grouped, role_routed, sync};
use dispatch::feed::runner::FeedRunner;
use dispatch::feed::store::{
    FeedSyncOutcome, RemovedFeedTask, StoreAction, StoreAnswer, SyncStep,
};
use dispatch::models::{
    Epic, EpicId, EpicOrigin, FeedItem, FeedRole, Signal, Task, TaskId, TaskStatus, TaskTag,
};
use dispatch::process::Reply;

#[derive(Clone, Copy, Debug, PartialEq, Eq)]
enum SubStatus {
    Resting,
    Active,
}

/// A task as the board keeps it.
#[derive(Clone, Debug)]
struct Row {
    id: TaskId,
    title: String,
    description: String,
    external_id: Option<String>,
    status: TaskStatus,
    sub_status: SubStatus,
    tag: Option<TaskTag>,
    labels: Vec<String>,
    sort_order: Option<i64>,
    repo_path: String,
    base_branch: String,
    worktree: Option<String>,
    tmux_window: Option<String>,
    epic_id: EpicId,
}

#[derive(Default)]
struct TaskPatch {
    status: Option<TaskStatus>,
    sub_status: Option<SubStatus>,
    worktree: Option<Option<String>>,
    tmux_window: Option<Option<String>>,
}

impl TaskPatch {
    fn new() -> TaskPatch {
        TaskPatch::default()
    }

    fn status(mut self, status: TaskStatus) -> TaskPatch {
        self.status = Some(status);
        self
    }

    fn sub_status(mut self, sub_status: SubStatus) -> TaskPatch {
        self.sub_status = Some(sub_status);
        self
    }

    fn worktree(mut self, worktree: Option<&str>) -> TaskPatch {
        self.worktree = Some(worktree.map(|w| w.to_string()));
        self
    }

    fn tmux_window(mut self, window: Option<&str>) -> TaskPatch {
        self.tmux_window = Some(window.map(|w| w.to_string()));
        self
    }
}

#[derive(Default)]
struct EpicPatch {
    status: Option<TaskStatus>,
    feed_role: Option<FeedRole>,
    group_by_repo: Option<bool>,
    feed_command: Option<Option<String>>,
    feed_interval_secs: Option<Option<i64>>,
    feed_append_only: Option<bool>,
}

impl EpicPatch {
    fn new() -> EpicPatch {
        EpicPatch::default()
    }

    fn status(mut self, status: TaskStatus) -> EpicPatch {
        self.status = Some(status);
        self
    }

    fn feed_role(mut self, role: FeedRole) -> EpicPatch {
        self.feed_role = Some(role);
        self
    }

    fn group_by_repo(mut self, group_by_repo: bool) -> EpicPatch {
        self.group_by_repo = Some(group_by_repo);
        self
    }

    fn feed_command(mut self, command: Option<&str>) -> EpicPatch {
        self.feed_command = Some(command.map(|c| c.to_string()));
        self
    }

    fn feed_interval_secs(mut self, secs: Option<i64>) -> EpicPatch {
        self.feed_interval_secs = Some(secs);
        self
    }

    fn feed_append_only(mut self, append_only: bool) -> EpicPatch {
        self.feed_append_only = Some(append_only);
        self
    }
}

/// A board in memory.
struct Board {
    epics: RefCell<Vec<(Epic, Option<EpicId>)>>,
    tasks: RefCell<Vec<Row>>,
    next_id: RefCell<i64>,
    repo_paths: RefCell<Vec<String>>,
    /// What was done, in its order.
    log: RefCell<Vec<StoreAction>>,
    /// The kind of action that fails.
    broken: RefCell<Option<&'static str>>,
}

impl Board {
    fn new() -> Board {
        Board {
            epics: RefCell::new(vec![]),
            tasks: RefCell::new(vec![]),
            next_id: RefCell::new(1),
            repo_paths: RefCell::new(vec![]),
            log: RefCell::new(vec![]),
            broken: RefCell::new(None),
        }
    }

    fn fresh_id(&self) -> i64 {
        let id = *self.next_id.borrow();
        *self.next_id.borrow_mut() = id + 1;
        id
    }

    fn create_epic(
        &self,
        title: &str,
        description: &str,
        parent: Option<EpicId>,
    ) -> Result<Epic, String> {
        let epic = Epic {
            id: EpicId(self.fresh_id()),
            title: title.to_string(),
            description: description.to_string(),
            status: TaskStatus::Backlog,
            feed_command: None,
            feed_interval_secs: None,
            group_by_repo: false,
            feed_append_only: false,
            feed_role: FeedRole::NoRole,
            origin: EpicOrigin::Manual,
        };
        self.epics.borrow_mut().push((epic.clone(), parent));
        Ok(epic)
    }

    fn create_repo_group_sub_epic(&self, parent: EpicId, repo: &str) -> Result<EpicId, String> {
        for epic in self.list_sub_epics(parent)? {
            if epic.title == repo && epic.status != TaskStatus::Archived {
                return Ok(epic.id);
            }
        }
        let id = self.create_epic(repo, "", Some(parent))?.id;
        self.edit_epic(id, |epic| epic.origin = EpicOrigin::RepoGroup);
        Ok(id)
    }

    fn edit_epic(&self, id: EpicId, edit: impl Fn(&mut Epic)) {
        for (epic, _) in self.epics.borrow_mut().iter_mut() {
            if epic.id == id {
                edit(epic);
            }
        }
    }

    fn patch_epic(&self, id: EpicId, patch: &EpicPatch) -> Result<(), String> {
        self.edit_epic(id, |epic| {
            epic.status = patch.status.unwrap_or(epic.status);
            epic.feed_role = patch.feed_role.unwrap_or(epic.feed_role);
            epic.group_by_repo = patch.group_by_repo.unwrap_or(epic.group_by_repo);
            epic.feed_append_only = patch.feed_append_only.unwrap_or(epic.feed_append_only);
            epic.feed_interval_secs = patch.feed_interval_secs.unwrap_or(epic.feed_interval_secs);
            if let Some(command) = &patch.feed_command {
                epic.feed_command = command.clone();
            }
        });
        Ok(())
    }

    fn get_epic(&self, id: EpicId) -> Result<Option<Epic>, String> {
        Ok(self
            .epics
            .borrow()
            .iter()
            .find(|(epic, _)| epic.id == id)
            .map(|(epic, _)| epic.clone()))
    }

    fn list_epics(&self) -> Vec<Epic> {
        self.epics
            .borrow()
            .iter()
            .map(|(epic, _)| epic.clone())
            .collect()
    }

    fn save_repo_path(&self, path: &str) -> Result<(), String> {
        self.repo_paths.borrow_mut().push(path.to_string());
        Ok(())
    }

    /// A finished epic with unfinished tasks, its own or those right below, is
    /// taken up again.
    fn recalculate(&self, id: EpicId) {
        let mut within = vec![id];
        for epic in self.list_sub_epics(id).unwrap() {
            within.push(epic.id);
        }
        let open = self
            .tasks
            .borrow()
            .iter()
            .any(|row| within.contains(&row.epic_id) && row.status != TaskStatus::Done);
        self.edit_epic(id, |epic| {
            if open && epic.status == TaskStatus::Done {
                epic.status = TaskStatus::Backlog;
            }
        });
    }

    fn list_sub_epics(&self, parent: EpicId) -> Result<Vec<Epic>, String> {
        Ok(self
            .epics
            .borrow()
            .iter()
            .filter(|(_, above)| *above == Some(parent))
            .map(|(epic, _)| epic.clone())
            .collect())
    }

    fn list_tasks_for_epic(&self, epic: EpicId) -> Result<Vec<Row>, String> {
        Ok(self
            .tasks
            .borrow()
            .iter()
            .filter(|row| row.epic_id == epic)
            .cloned()
            .collect())
    }

    fn edit_task(&self, id: TaskId, edit: impl Fn(&mut Row)) {
        for row in self.tasks.borrow_mut().iter_mut() {
            if row.id == id {
                edit(row);
            }
        }
    }

    fn patch_task(&self, id: TaskId, patch: &TaskPatch) -> Result<(), String> {
        self.edit_task(id, |row| {
            row.status = patch.status.unwrap_or(row.status);
            row.sub_status = patch.sub_status.unwrap_or(row.sub_status);
            if let Some(worktree) = &patch.worktree {
                row.worktree = worktree.clone();
            }
            if let Some(window) = &patch.tmux_window {
                row.tmux_window = window.clone();
            }
        });
        Ok(())
    }

    fn insert(&self, title: &str, repo_path: &str, base_branch: &str, epic: EpicId) -> TaskId {
        let id = TaskId(self.fresh_id());
        self.tasks.borrow_mut().push(Row {
            id,
            title: title.to_string(),
            description: String::new(),
            external_id: None,
            status: TaskStatus::Backlog,
            sub_status: SubStatus::Resting,
            tag: None,
            labels: vec![],
            sort_order: None,
            repo_path: repo_path.to_string(),
            base_branch: base_branch.to_string(),
            worktree: None,
            tmux_window: None,
            epic_id: epic,
        });
        id
    }

    fn merge(&self, epic: EpicId, entries: &[FeedItemWithTarget]) {
        for entry in entries {
            let name = Some(entry.item.external_id.clone());
            let here = self
                .tasks
                .borrow()
                .iter()
                .find(|row| row.epic_id == epic && row.external_id == name)
                .map(|row| row.id);
            let item = &entry.item;
            let id = here.unwrap_or_else(|| {
                let id = self.insert(&item.title, &entry.repo_path, &entry.base_branch, epic);
                self.edit_task(id, |row| {
                    row.external_id = name.clone();
                    row.sort_order = item.sort_order;
                });
                id
            });
            self.refresh(id, &item.title, &item.description, item.tag, &item.labels);
        }
    }

    fn refresh(
        &self,
        id: TaskId,
        title: &str,
        description: &str,
        tag: TaskTag,
        labels: &[String],
    ) {
        self.edit_task(id, |row| {
            row.title = title.to_string();
            row.description = description.to_string();
            row.tag = Some(tag);
            row.labels = labels.to_vec();
        });
    }

    fn remove_where(&self, gone: impl Fn(&Row) -> bool) -> Vec<RemovedFeedTask> {
        let mut tasks = self.tasks.borrow_mut();
        let removed = tasks
            .iter()
            .filter(|row| gone(row))
            .filter(|row| row.worktree.is_some() || row.tmux_window.is_some())
            .map(|row| RemovedFeedTask {
                id: row.id,
                repo_path: row.repo_path.clone(),
                worktree: row.worktree.clone(),
                tmux_window: row.tmux_window.clone(),
            })
            .collect();
        tasks.retain(|row| !gone(row));
        removed
    }

    fn upsert_feed_tasks(
        &self,
        epic: EpicId,
        items: &[FeedItem],
        repo_paths: &[String],
        base_branches: &[String],
    ) -> Result<Vec<RemovedFeedTask>, String> {
        let entries: Vec<FeedItemWithTarget> = items
            .iter()
            .zip(repo_paths)
            .zip(base_branches)
            .map(|((item, repo_path), base_branch)| FeedItemWithTarget {
                item: item.clone(),
                repo_path: repo_path.clone(),
                base_branch: base_branch.clone(),
            })
            .collect();
        self.merge(epic, &entries);
        Ok(self.remove_where(|row| {
            row.epic_id == epic
                && match &row.external_id {
                    Some(name) => !items.iter().any(|item| &item.external_id == name),
                    None => false,
                }
        }))
    }

    fn flatten(&self, epic: EpicId) {
        for group in self.list_sub_epics(epic).unwrap() {
            if group.origin == EpicOrigin::RepoGroup {
                for row in self.list_tasks_for_epic(group.id).unwrap() {
                    self.edit_task(row.id, |row| row.epic_id = epic);
                }
                self.epics.borrow_mut().retain(|(e, _)| e.id != group.id);
            }
        }
    }

    fn kind(action: &StoreAction) -> &'static str {
        match action {
            StoreAction::ListSubEpics(_) => "list sub-epics",
            StoreAction::ListTasks(_) => "list tasks",
            StoreAction::CreateEpic { .. } => "create epic",
            StoreAction::SetRole { .. } => "set role",
            StoreAction::CreateRepoGroup { .. } => "create group",
            StoreAction::MoveTask { .. } => "move",
            StoreAction::RefreshTask { .. } => "refresh",
            StoreAction::Upsert { .. } => "upsert",
            StoreAction::Merge { .. } => "merge",
            StoreAction::DeleteStale { .. } => "delete stale",
            StoreAction::Recalculate(_) => "recalculate",
            StoreAction::Flatten(_) => "flatten",
        }
    }

    fn kinds(&self) -> Vec<&'static str> {
        self.log.borrow().iter().map(Board::kind).collect()
    }

    fn perform(&self, action: &StoreAction) -> StoreAnswer {
        self.log.borrow_mut().push(action.clone());
        if *self.broken.borrow() == Some(Board::kind(action)) {
            return StoreAnswer::Failed("out of order".to_string());
        }
        match action {
            StoreAction::ListSubEpics(epic) => {
                StoreAnswer::Epics(self.list_sub_epics(*epic).unwrap())
            }
            StoreAction::ListTasks(epic) => StoreAnswer::Tasks(
                self.list_tasks_for_epic(*epic)
                    .unwrap()
                    .into_iter()
                    .map(|row| Task {
                        id: row.id,
                        title: row.title,
                        description: row.description,
                        status: row.status,
                        tag: row.tag,
                        repo_path: row.repo_path,
                        base_branch: row.base_branch,
                        external_id: row.external_id,
                        epic_id: Some(row.epic_id),
                        ..Default::default()
                    })
                    .collect(),
            ),
            StoreAction::CreateEpic { title, parent } => {
                StoreAnswer::Made(self.create_epic(title, "", Some(*parent)).unwrap().id)
            }
            StoreAction::SetRole { epic, role } => {
                self.edit_epic(*epic, |epic| epic.feed_role = *role);
                StoreAnswer::Finished
            }
            StoreAction::CreateRepoGroup { parent, repo } => {
                StoreAnswer::Made(self.create_repo_group_sub_epic(*parent, repo).unwrap())
            }
            StoreAction::MoveTask { task, epic } => {
                self.edit_task(*task, |row| row.epic_id = *epic);
                StoreAnswer::Finished
            }
            StoreAction::RefreshTask {
                task,
                title,
                description,
                tag,
                labels,
            } => {
                self.refresh(*task, title, description, *tag, labels);
                StoreAnswer::Finished
            }
            StoreAction::Upsert { epic, entries } => {
                let (items, paths, branches) = FeedItemWithTarget::unzip(entries);
                StoreAnswer::Removed(
                    self.upsert_feed_tasks(*epic, &items, &paths, &branches)
                        .unwrap(),
                )
            }
            StoreAction::Merge { epic, entries } => {
                self.merge(*epic, entries);
                StoreAnswer::Finished
            }
            StoreAction::DeleteStale { root, keep } => {
                let mut within = vec![*root];
                for epic in self.list_sub_epics(*root).unwrap() {
                    within.push(epic.id);
                }
                StoreAnswer::Removed(self.remove_where(|row| {
                    within.contains(&row.epic_id)
                        && match &row.external_id {
                            Some(name) => !keep.contains(name),
                            None => false,
                        }
                }))
            }
            StoreAction::Recalculate(_) => StoreAnswer::Finished,
            StoreAction::Flatten(epic) => {
                self.flatten(*epic);
                StoreAnswer::Finished
            }
        }
    }

    fn drive(
        &self,
        step: impl Fn(&Vec<StoreAnswer>) -> SyncStep<FeedSyncOutcome>,
    ) -> Result<FeedSyncOutcome, String> {
        let mut answers: Vec<StoreAnswer> = vec![];
        loop {
            match step(&answers) {
                SyncStep::Ask(action) => answers.push(self.perform(&action)),
                SyncStep::Done(outcome, _) => return Ok(outcome),
                SyncStep::Failed(why) => return Err(why),
            }
        }
    }
}

fn role_routed_sync(
    db: &Board,
    parent: EpicId,
    entries: Vec<FeedItemWithTarget>,
    mode: SyncMode,
) -> Result<FeedSyncOutcome, String> {
    db.drive(|answers| role_routed::run_role_routed_feed_sync(parent, &entries, mode, answers))
}

fn grouped_sync(
    db: &Board,
    parent: EpicId,
    entries: Vec<FeedItemWithTarget>,
    mode: SyncMode,
) -> FeedSyncOutcome {
    db.drive(|answers| grouped::sync_grouped_feed(parent, &entries, mode, answers))
        .unwrap()
}

fn feed_sync(
    db: &Board,
    epic: EpicId,
    group_by_repo: bool,
    entries: Vec<FeedItemWithTarget>,
    mode: SyncMode,
) -> Result<FeedSyncOutcome, String> {
    db.drive(|answers| sync::run_feed_sync(epic, group_by_repo, &entries, mode, answers))
}

fn run_role_routed_feed_sync(
    db: &Board,
    parent: EpicId,
    entries: Vec<FeedItemWithTarget>,
) -> Result<FeedSyncOutcome, String> {
    role_routed_sync(db, parent, entries, SyncMode::Reconcile)
}

fn sync_grouped_feed(
    db: &Board,
    parent: EpicId,
    entries: Vec<FeedItemWithTarget>,
) -> FeedSyncOutcome {
    grouped_sync(db, parent, entries, SyncMode::Reconcile)
}

fn run_feed_sync(
    db: &Board,
    epic: EpicId,
    group_by_repo: bool,
    entries: Vec<FeedItemWithTarget>,
) -> Result<FeedSyncOutcome, String> {
    feed_sync(db, epic, group_by_repo, entries, SyncMode::Reconcile)
}

fn run_feed_sync_by_role(
    db: &Board,
    epic: EpicId,
    role: FeedRole,
    group_by_repo: bool,
    entries: Vec<FeedItemWithTarget>,
) -> Result<FeedSyncOutcome, String> {
    db.drive(|answers| {
        sync::run_feed_sync_by_role(
            epic,
            role,
            group_by_repo,
            &entries,
            SyncMode::Reconcile,
            answers,
        )
    })
}

fn make_item(external_id: &str, url: &str) -> FeedItem {
    FeedItem {
        external_id: external_id.to_string(),
        title: external_id.to_string(),
        description: String::new(),
        url: url.to_string(),
        url_type: None,
        status: TaskStatus::Backlog,
        tag: TaskTag::PrReview,
        labels: vec![],
        sort_order: None,
        signals: vec![],
        wrap_up_mode: None,
    }
}

fn make_signal_item(external_id: &str, url: &str, signals: Vec<Signal>) -> FeedItem {
    FeedItem {
        signals,
        ..make_item(external_id, url)
    }
}

fn entries(
    items: &[FeedItem],
    repo_paths: &[&str],
    base_branches: &[&str],
) -> Vec<FeedItemWithTarget> {
    items
        .iter()
        .zip(repo_paths.iter())
        .zip(base_branches.iter())
        .map(|((i, rp), bb)| FeedItemWithTarget {
            item: i.clone(),
            repo_path: rp.to_string(),
            base_branch: bb.to_string(),
        })
        .collect()
}

fn create_manual_task(db: &Board, title: &str, epic: EpicId) -> TaskId {
    db.insert(title, "/repo", "main", epic)
}

fn role_sub_epic(db: &Board, parent: EpicId, role: FeedRole) -> EpicId {
    let subs = db.list_sub_epics(parent).unwrap();
    let matching: Vec<_> = subs.iter().filter(|e| e.feed_role == role).collect();
    assert_eq!(
        matching.len(),
        1,
        "expected exactly one {role:?} sub-epic, got {subs:?}"
    );
    matching[0].id
}


#[test]
fn tests_route_routed_inserts_into_role_sub_epic() {
    let db = Board::new();
    let parent = db.create_epic("Reviews", "", None).unwrap();
    db.patch_epic(
        parent.id,
        &EpicPatch::new().feed_role(FeedRole::ReviewsParent),
    )
    .unwrap();

    let items = vec![make_signal_item(
        "pr-1",
        "https://github.com/org/repo/pull/1",
        vec![Signal::DirectRequest],
    )];

    run_role_routed_feed_sync(&db, parent.id, entries(&items, &[""], &["main"]))
        .unwrap();

    let my = role_sub_epic(&db, parent.id, FeedRole::MyReviews);
    let team = role_sub_epic(&db, parent.id, FeedRole::TeamReviews);
    let bots = role_sub_epic(&db, parent.id, FeedRole::Bots);

    let my_tasks = db.list_tasks_for_epic(my).unwrap();
    assert_eq!(my_tasks.len(), 1, "direct-request PR lands in My Reviews");
    assert_eq!(my_tasks[0].external_id.as_deref(), Some("pr-1"));
    assert!(db.list_tasks_for_epic(team).unwrap().is_empty());
    assert!(db.list_tasks_for_epic(bots).unwrap().is_empty());
}

#[test]
fn tests_route_routed_moves_task_preserving_state() {
    let db = Board::new();
    let parent = db.create_epic("Reviews", "", None).unwrap();

    let cycle1 = vec![make_signal_item(
        "pr-1",
        "https://github.com/org/repo/pull/1",
        vec![Signal::TeamRequest],
    )];
    run_role_routed_feed_sync(&db, parent.id, entries(&cycle1, &[""], &["main"]))
        .unwrap();

    let team = role_sub_epic(&db, parent.id, FeedRole::TeamReviews);
    let task = db.list_tasks_for_epic(team).unwrap().remove(0);

    db.patch_task(
        task.id,
        &TaskPatch::new()
            .status(TaskStatus::Running)
            .sub_status(SubStatus::Active)
            .worktree(Some("/tmp/wt-pr-1"))
            .tmux_window(Some("dispatch:7")),
    )
    .unwrap();

    let cycle2 = vec![make_signal_item(
        "pr-1",
        "https://github.com/org/repo/pull/1",
        vec![Signal::TeamRequest, Signal::Reviewed],
    )];
    run_role_routed_feed_sync(&db, parent.id, entries(&cycle2, &[""], &["main"]))
        .unwrap();

    let my = role_sub_epic(&db, parent.id, FeedRole::MyReviews);
    let my_tasks = db.list_tasks_for_epic(my).unwrap();
    assert_eq!(my_tasks.len(), 1, "exactly one task, moved into My Reviews");
    let moved = &my_tasks[0];
    assert_eq!(moved.id, task.id, "same task row, not a recreate");
    assert_eq!(moved.external_id.as_deref(), Some("pr-1"));
    assert_eq!(moved.status, TaskStatus::Running, "status preserved");
    assert_eq!(
        moved.sub_status,
        SubStatus::Active,
        "sub_status preserved"
    );
    assert_eq!(moved.worktree.as_deref(), Some("/tmp/wt-pr-1"));
    assert_eq!(
        moved.tmux_window.as_deref(),
        Some("dispatch:7")
    );

    assert!(
        db.list_tasks_for_epic(team).unwrap().is_empty(),
        "old role sub-epic no longer holds the moved task"
    );
}

#[test]
fn tests_route_routed_move_not_deleted_same_cycle() {
    let db = Board::new();
    let parent = db.create_epic("Reviews", "", None).unwrap();

    let cycle1 = vec![make_signal_item(
        "pr-1",
        "https://github.com/org/repo/pull/1",
        vec![Signal::TeamRequest],
    )];
    run_role_routed_feed_sync(&db, parent.id, entries(&cycle1, &[""], &["main"]))
        .unwrap();

    let cycle2 = vec![make_signal_item(
        "pr-1",
        "https://github.com/org/repo/pull/1",
        vec![Signal::Reviewed],
    )];
    run_role_routed_feed_sync(&db, parent.id, entries(&cycle2, &[""], &["main"]))
        .unwrap();

    let my = role_sub_epic(&db, parent.id, FeedRole::MyReviews);
    let team = role_sub_epic(&db, parent.id, FeedRole::TeamReviews);
    assert_eq!(
        db.list_tasks_for_epic(my).unwrap().len(),
        1,
        "moved PR survives in its new role"
    );
    assert!(db.list_tasks_for_epic(team).unwrap().is_empty());
}

#[test]
fn moved_task_is_never_reported_as_removed() {
    let db = Board::new();
    let parent = db.create_epic("Reviews", "", None).unwrap();
    db.patch_epic(
        parent.id,
        &EpicPatch::new().feed_role(FeedRole::ReviewsParent),
    )
    .unwrap();

    let cycle1 = vec![
        make_signal_item(
            "pr-1",
            "https://github.com/org/repo/pull/1",
            vec![Signal::TeamRequest],
        ),
        make_signal_item(
            "pr-2",
            "https://github.com/org/repo/pull/2",
            vec![Signal::TeamRequest],
        ),
    ];
    let outcome = run_feed_sync_by_role(
        &db,
        parent.id,
        FeedRole::ReviewsParent,
        false,
        entries(&cycle1, &["", ""], &["main", "main"]),
    )
    .unwrap();
    assert!(
        outcome.removed.is_empty(),
        "nothing removed on first sight, got: {:?}",
        outcome.removed
    );

    let team = role_sub_epic(&db, parent.id, FeedRole::TeamReviews);
    let task = db
        .list_tasks_for_epic(team)
        .unwrap()
        .into_iter()
        .find(|t| t.external_id.as_deref() == Some("pr-1"))
        .expect("pr-1 landed in Team Reviews");
    db.patch_task(
        task.id,
        &TaskPatch::new()
            .worktree(Some("/repo/a/.worktrees/7-pr-1"))
            .tmux_window(Some("dispatch:pr-1")),
    )
    .unwrap();

    let cycle2 = vec![
        make_signal_item(
            "pr-1",
            "https://github.com/org/repo/pull/1",
            vec![Signal::TeamRequest, Signal::Reviewed],
        ),
        make_signal_item(
            "pr-2",
            "https://github.com/org/repo/pull/2",
            vec![Signal::TeamRequest],
        ),
    ];
    let outcome = run_feed_sync_by_role(
        &db,
        parent.id,
        FeedRole::ReviewsParent,
        false,
        entries(&cycle2, &["", ""], &["main", "main"]),
    )
    .unwrap();

    assert!(
        outcome.removed.is_empty(),
        "a moved task must not be reported for teardown, got: {:?}",
        outcome.removed
    );

    let my = role_sub_epic(&db, parent.id, FeedRole::MyReviews);
    let moved = db.list_tasks_for_epic(my).unwrap().remove(0);
    assert_eq!(moved.id, task.id, "same task row, not a recreate");
    assert_eq!(
        moved.worktree.as_deref(),
        Some("/repo/a/.worktrees/7-pr-1"),
        "the move must preserve the in-flight worktree"
    );
    assert_eq!(
        moved.tmux_window.as_deref(),
        Some("dispatch:pr-1")
    );
}

#[test]
fn absent_task_with_worktree_is_reported_as_removed() {
    let db = Board::new();
    let parent = db.create_epic("Reviews", "", None).unwrap();
    db.patch_epic(
        parent.id,
        &EpicPatch::new().feed_role(FeedRole::ReviewsParent),
    )
    .unwrap();

    let cycle1 = vec![make_signal_item(
        "pr-1",
        "https://github.com/org/repo/pull/1",
        vec![Signal::TeamRequest],
    )];
    run_feed_sync_by_role(
        &db,
        parent.id,
        FeedRole::ReviewsParent,
        false,
        entries(&cycle1, &[""], &["main"]),
    )
    .unwrap();

    let team = role_sub_epic(&db, parent.id, FeedRole::TeamReviews);
    let task = db.list_tasks_for_epic(team).unwrap().remove(0);
    db.patch_task(
        task.id,
        &TaskPatch::new()
            .worktree(Some("/repo/a/.worktrees/7-pr-1"))
            .tmux_window(Some("dispatch:pr-1")),
    )
    .unwrap();

    let outcome = run_feed_sync_by_role(&db, parent.id, FeedRole::ReviewsParent, false, vec![])
        .unwrap();

    assert_eq!(
        outcome.removed.len(),
        1,
        "the merged PR's worktree must be reported for teardown, got: {:?}",
        outcome.removed
    );
    assert_eq!(outcome.removed[0].id, task.id);
    assert_eq!(
        outcome.removed[0].worktree.as_deref(),
        Some("/repo/a/.worktrees/7-pr-1")
    );
    assert_eq!(
        outcome.removed[0].tmux_window.as_deref(),
        Some("dispatch:pr-1")
    );
}

#[test]
fn flat_sync_reports_removed_task_with_worktree() {
    let db = Board::new();
    let epic = db.create_epic("Flat Feed", "", None).unwrap();

    let items = vec![make_item("pr-1", "https://github.com/org/repo/pull/1")];
    run_feed_sync(&db, epic.id, false, entries(&items, &[""], &["main"]))
        .unwrap();

    let task = db.list_tasks_for_epic(epic.id).unwrap().remove(0);
    db.patch_task(
        task.id,
        &TaskPatch::new()
            .worktree(Some("/repo/a/.worktrees/7-pr-1"))
            .tmux_window(Some("dispatch:pr-1")),
    )
    .unwrap();

    let outcome = run_feed_sync(&db, epic.id, false, vec![]).unwrap();

    assert_eq!(
        outcome.removed.len(),
        1,
        "flat stale-delete must report its removal, got: {:?}",
        outcome.removed
    );
    assert_eq!(outcome.removed[0].id, task.id);
}

fn flat_feed_task_count(db: &Board, epic: EpicId) -> usize {
    db.list_tasks_for_epic(epic)
        .unwrap()
        .into_iter()
        .filter(|t| t.external_id.is_some())
        .count()
}

#[test]
fn route_routed_rescues_flat_task_stranded_on_parent() {
    let db = Board::new();
    let parent = db.create_epic("Reviews", "", None).unwrap();
    db.patch_epic(
        parent.id,
        &EpicPatch::new().feed_role(FeedRole::ReviewsParent),
    )
    .unwrap();

    let item = make_signal_item(
        "pr-1",
        "https://github.com/org/repo/pull/1",
        vec![Signal::DirectRequest],
    );
    db.upsert_feed_tasks(
        parent.id,
        std::slice::from_ref(&item),
        &["".into()],
        &["main".into()],
    )
    .unwrap();
    let stranded = db.list_tasks_for_epic(parent.id).unwrap().remove(0);

    db.patch_task(
        stranded.id,
        &TaskPatch::new()
            .status(TaskStatus::Running)
            .sub_status(SubStatus::Active)
            .worktree(Some("/tmp/wt-pr-1"))
            .tmux_window(Some("dispatch:7")),
    )
    .unwrap();

    run_role_routed_feed_sync(&db, parent.id, entries(&[item], &[""], &["main"]))
        .unwrap();

    assert_eq!(
        flat_feed_task_count(&db, parent.id),
        0,
        "reviews_parent must hold no flat feed task after reconcile"
    );

    let my = role_sub_epic(&db, parent.id, FeedRole::MyReviews);
    let my_tasks = db.list_tasks_for_epic(my).unwrap();
    assert_eq!(my_tasks.len(), 1, "the rescued PR lands in My Reviews once");
    let moved = &my_tasks[0];
    assert_eq!(moved.id, stranded.id, "same task row, not delete+recreate");
    assert_eq!(moved.status, TaskStatus::Running, "status preserved");
    assert_eq!(
        moved.sub_status,
        SubStatus::Active,
        "sub_status preserved"
    );
    assert_eq!(moved.worktree.as_deref(), Some("/tmp/wt-pr-1"));
    assert_eq!(
        moved.tmux_window.as_deref(),
        Some("dispatch:7")
    );
}

#[test]
fn route_routed_deletes_stale_flat_task_on_parent() {
    let db = Board::new();
    let parent = db.create_epic("Reviews", "", None).unwrap();
    db.patch_epic(
        parent.id,
        &EpicPatch::new().feed_role(FeedRole::ReviewsParent),
    )
    .unwrap();

    let gone = make_item("pr-gone", "https://github.com/org/repo/pull/9");
    db.upsert_feed_tasks(parent.id, &[gone], &["".into()], &["main".into()])
        .unwrap();
    assert_eq!(flat_feed_task_count(&db, parent.id), 1);

    run_role_routed_feed_sync(&db, parent.id, entries(&[], &[], &[]))
        .unwrap();

    assert_eq!(
        flat_feed_task_count(&db, parent.id),
        0,
        "stale parent-stranded feed task must be deleted"
    );
}

#[test]
fn route_routed_preserves_manual_task_on_parent() {
    let db = Board::new();
    let parent = db.create_epic("Reviews", "", None).unwrap();
    db.patch_epic(
        parent.id,
        &EpicPatch::new().feed_role(FeedRole::ReviewsParent),
    )
    .unwrap();

    let manual_id = create_manual_task(&db, "Manual note on parent", parent.id);

    run_role_routed_feed_sync(&db, parent.id, entries(&[], &[], &[]))
        .unwrap();

    let survivors = db.list_tasks_for_epic(parent.id).unwrap();
    assert_eq!(survivors.len(), 1, "manual task must survive");
    assert_eq!(survivors[0].id, manual_id);
    assert!(
        survivors[0].external_id.is_none(),
        "the survivor is the manual (non-feed) task"
    );
}

#[test]
fn route_routed_clears_parent_duplicate_when_canonical_in_sub_epic() {
    let db = Board::new();
    let parent = db.create_epic("Reviews", "", None).unwrap();
    db.patch_epic(
        parent.id,
        &EpicPatch::new().feed_role(FeedRole::ReviewsParent),
    )
    .unwrap();

    let item = make_signal_item(
        "pr-1",
        "https://github.com/org/repo/pull/1",
        vec![Signal::DirectRequest],
    );

    run_role_routed_feed_sync(
        &db,
        parent.id,
        entries(std::slice::from_ref(&item), &[""], &["main"]),
    )
    .unwrap();
    let my = role_sub_epic(&db, parent.id, FeedRole::MyReviews);
    assert_eq!(db.list_tasks_for_epic(my).unwrap().len(), 1);

    db.upsert_feed_tasks(
        parent.id,
        std::slice::from_ref(&item),
        &["".into()],
        &["main".into()],
    )
    .unwrap();
    assert_eq!(
        flat_feed_task_count(&db, parent.id),
        1,
        "duplicate planted"
    );

    run_role_routed_feed_sync(
        &db,
        parent.id,
        entries(std::slice::from_ref(&item), &[""], &["main"]),
    )
    .unwrap();

    assert_eq!(
        flat_feed_task_count(&db, parent.id),
        0,
        "parent duplicate cleared"
    );
    assert_eq!(
        db.list_tasks_for_epic(my).unwrap().len(),
        1,
        "exactly one canonical copy remains in My Reviews"
    );
}

#[test]
fn tests_route_routed_removes_merged_pr_keeps_manual() {
    let db = Board::new();
    let parent = db.create_epic("Reviews", "", None).unwrap();

    let cycle1 = vec![
        make_signal_item(
            "pr-1",
            "https://github.com/org/repo/pull/1",
            vec![Signal::DirectRequest],
        ),
        make_signal_item(
            "pr-2",
            "https://github.com/org/repo/pull/2",
            vec![Signal::TeamRequest],
        ),
    ];
    run_role_routed_feed_sync(
        &db,
        parent.id,
        entries(&cycle1, &["", ""], &["main", "main"]),
    )
    .unwrap();

    let my = role_sub_epic(&db, parent.id, FeedRole::MyReviews);
    let manual_id = create_manual_task(&db, "Manual", my);

    let cycle2 = vec![make_signal_item(
        "pr-1",
        "https://github.com/org/repo/pull/1",
        vec![Signal::DirectRequest],
    )];
    run_role_routed_feed_sync(&db, parent.id, entries(&cycle2, &[""], &["main"]))
        .unwrap();

    let team = role_sub_epic(&db, parent.id, FeedRole::TeamReviews);
    assert!(
        db.list_tasks_for_epic(team).unwrap().is_empty(),
        "merged pr-2 removed from Team Reviews"
    );

    let my_tasks = db.list_tasks_for_epic(my).unwrap();
    assert!(
        my_tasks.iter().any(|t| t.id == manual_id),
        "manual task survives reconcile"
    );
    assert!(
        my_tasks
            .iter()
            .any(|t| t.external_id.as_deref() == Some("pr-1")),
        "still-open pr-1 retained"
    );
}

#[test]
fn route_routed_preserves_per_item_repo_path_and_base_branch() {
    let db = Board::new();
    let parent = db.create_epic("Reviews", "", None).unwrap();
    db.patch_epic(
        parent.id,
        &EpicPatch::new().feed_role(FeedRole::ReviewsParent),
    )
    .unwrap();

    let items = vec![
        make_signal_item(
            "pr-my",
            "https://github.com/org/repo-my/pull/1",
            vec![Signal::DirectRequest],
        ),
        make_signal_item(
            "pr-team",
            "https://github.com/org/repo-team/pull/2",
            vec![Signal::TeamRequest],
        ),
        make_signal_item(
            "pr-bots",
            "https://github.com/org/repo-bots/pull/3",
            vec![Signal::AuthorBot],
        ),
    ];
    let entries = entries(
        &items,
        &["/repo-my", "/repo-team", "/repo-bots"],
        &["my-branch", "team-branch", "bots-branch"],
    );
    run_role_routed_feed_sync(&db, parent.id, entries)
        .unwrap();

    let my = role_sub_epic(&db, parent.id, FeedRole::MyReviews);
    let team = role_sub_epic(&db, parent.id, FeedRole::TeamReviews);
    let bots = role_sub_epic(&db, parent.id, FeedRole::Bots);

    let task_by_ext = |tasks: &[Row], ext: &str| {
        tasks
            .iter()
            .find(|t| t.external_id.as_deref() == Some(ext))
            .unwrap()
            .clone()
    };

    let my_tasks = db.list_tasks_for_epic(my).unwrap();
    let my_task = task_by_ext(&my_tasks, "pr-my");
    assert_eq!(my_task.repo_path, "/repo-my");
    assert_eq!(my_task.base_branch, "my-branch");

    let team_tasks = db.list_tasks_for_epic(team).unwrap();
    let team_task = task_by_ext(&team_tasks, "pr-team");
    assert_eq!(team_task.repo_path, "/repo-team");
    assert_eq!(team_task.base_branch, "team-branch");

    let bots_tasks = db.list_tasks_for_epic(bots).unwrap();
    let bots_task = task_by_ext(&bots_tasks, "pr-bots");
    assert_eq!(bots_task.repo_path, "/repo-bots");
    assert_eq!(bots_task.base_branch, "bots-branch");
}

#[test]
fn tests_role_routed_group_by_repo_routes_into_repo_sub_epic() {
    let db = Board::new();
    let parent = db.create_epic("Reviews", "", None).unwrap();
    db.patch_epic(
        parent.id,
        &EpicPatch::new().feed_role(FeedRole::ReviewsParent),
    )
    .unwrap();

    let items1 = vec![make_signal_item(
        "pr-1",
        "https://github.com/org/myrepo/pull/1",
        vec![Signal::TeamRequest],
    )];
    run_role_routed_feed_sync(&db, parent.id, entries(&items1, &[""], &["main"]))
        .unwrap();

    let team = role_sub_epic(&db, parent.id, FeedRole::TeamReviews);
    db.patch_epic(team, &EpicPatch::new().group_by_repo(true))
        .unwrap();

    run_role_routed_feed_sync(&db, parent.id, entries(&items1, &[""], &["main"]))
        .unwrap();

    let team_direct = db.list_tasks_for_epic(team).unwrap();
    assert!(
        team_direct.is_empty(),
        "Team Reviews must have no direct tasks when group_by_repo is active"
    );

    let repo_subs = db.list_sub_epics(team).unwrap();
    assert_eq!(
        repo_subs.len(),
        1,
        "one repo-group sub-epic under Team Reviews"
    );
    assert_eq!(repo_subs[0].title, "myrepo");
    let repo_tasks = db.list_tasks_for_epic(repo_subs[0].id).unwrap();
    assert_eq!(repo_tasks.len(), 1, "PR landed in the repo-group sub-epic");
    assert_eq!(repo_tasks[0].external_id.as_deref(), Some("pr-1"));
}

#[test]
fn tests_role_routed_group_by_repo_no_duplicate_on_resync() {
    let db = Board::new();
    let parent = db.create_epic("Reviews", "", None).unwrap();
    db.patch_epic(
        parent.id,
        &EpicPatch::new().feed_role(FeedRole::ReviewsParent),
    )
    .unwrap();

    let items = vec![make_signal_item(
        "pr-1",
        "https://github.com/org/myrepo/pull/1",
        vec![Signal::TeamRequest],
    )];

    run_role_routed_feed_sync(&db, parent.id, entries(&items, &[""], &["main"]))
        .unwrap();

    let team = role_sub_epic(&db, parent.id, FeedRole::TeamReviews);
    db.patch_epic(team, &EpicPatch::new().group_by_repo(true))
        .unwrap();

    run_role_routed_feed_sync(&db, parent.id, entries(&items, &[""], &["main"]))
        .unwrap();

    run_role_routed_feed_sync(&db, parent.id, entries(&items, &[""], &["main"]))
        .unwrap();

    let repo_subs = db.list_sub_epics(team).unwrap();
    assert_eq!(repo_subs.len(), 1);
    let tasks = db.list_tasks_for_epic(repo_subs[0].id).unwrap();
    assert_eq!(tasks.len(), 1, "exactly one task after three cycles");
    assert!(
        db.list_tasks_for_epic(team).unwrap().is_empty(),
        "no duplicate in role sub-epic"
    );
}

#[test]
fn tests_role_routed_group_by_repo_stale_deletion_reaches_grandchildren() {
    let db = Board::new();
    let parent = db.create_epic("Reviews", "", None).unwrap();
    db.patch_epic(
        parent.id,
        &EpicPatch::new().feed_role(FeedRole::ReviewsParent),
    )
    .unwrap();

    let items = vec![make_signal_item(
        "pr-1",
        "https://github.com/org/myrepo/pull/1",
        vec![Signal::TeamRequest],
    )];

    run_role_routed_feed_sync(&db, parent.id, entries(&items, &[""], &["main"]))
        .unwrap();

    let team = role_sub_epic(&db, parent.id, FeedRole::TeamReviews);
    db.patch_epic(team, &EpicPatch::new().group_by_repo(true))
        .unwrap();

    run_role_routed_feed_sync(&db, parent.id, entries(&items, &[""], &["main"]))
        .unwrap();

    let repo_subs = db.list_sub_epics(team).unwrap();
    assert_eq!(
        db.list_tasks_for_epic(repo_subs[0].id).unwrap().len(),
        1,
        "task present before stale deletion cycle"
    );

    run_role_routed_feed_sync(&db, parent.id, entries(&[], &[], &[]))
        .unwrap();

    let tasks_after = db.list_tasks_for_epic(repo_subs[0].id).unwrap();
    assert!(
        tasks_after.is_empty(),
        "stale PR must be removed from repo-group sub-epic"
    );
}

#[test]
fn tests_archived_sub_epic_not_reused() {
    let db = Board::new();
    let parent = db.create_epic("Reviews", "", None).unwrap();

    let archived_sub = db.create_epic("repo-a", "", Some(parent.id)).unwrap();
    db.patch_epic(
        archived_sub.id,
        &EpicPatch::new().status(TaskStatus::Archived),
    )
    .unwrap();

    let items = vec![make_item("pr-1", "https://github.com/org/repo-a/pull/1")];

    let outcome = sync_grouped_feed(&db, parent.id, entries(&items, &[""], &["main"]));
    let sub_ids: Vec<_> = outcome
        .affected_epics
        .iter()
        .copied()
        .filter(|id| *id != parent.id)
        .collect();

    assert_eq!(sub_ids.len(), 1, "should return exactly one sub-epic ID");
    let new_id = sub_ids[0];
    assert_ne!(
        new_id, archived_sub.id,
        "must create a new sub-epic, not reuse the archived one"
    );

    let all_subs = db.list_sub_epics(parent.id).unwrap();
    let active: Vec<_> = all_subs
        .iter()
        .filter(|e| e.status != TaskStatus::Archived)
        .collect();
    assert_eq!(active.len(), 1, "exactly one active sub-epic after sync");
    assert_eq!(active[0].title, "repo-a");
    assert_eq!(active[0].id, new_id);

    let tasks = db.list_tasks_for_epic(new_id).unwrap();
    assert_eq!(tasks.len(), 1, "new sub-epic must have the feed task");
    assert_eq!(tasks[0].external_id.as_deref(), Some("pr-1"));
}

#[test]
fn tests_items_grouped_by_repo_name() {
    let db = Board::new();
    let parent = db.create_epic("Reviews", "", None).unwrap();

    let items = vec![
        make_item("1", "https://github.com/org/repo-a/pull/1"),
        make_item("2", "https://github.com/org/repo-b/pull/1"),
    ];

    sync_grouped_feed(
        &db,
        parent.id,
        entries(&items, &["", ""], &["main", "main"]),
    );

    let subs = db.list_sub_epics(parent.id).unwrap();
    assert_eq!(subs.len(), 2);
    let names: Vec<&str> = subs.iter().map(|e| e.title.as_str()).collect();
    assert!(names.contains(&"repo-a"), "got {names:?}");
    assert!(names.contains(&"repo-b"), "got {names:?}");

    for sub in &subs {
        let tasks = db.list_tasks_for_epic(sub.id).unwrap();
        assert_eq!(tasks.len(), 1, "sub-epic {} should have 1 task", sub.title);
    }

    let parent_tasks = db.list_tasks_for_epic(parent.id).unwrap();
    assert_eq!(parent_tasks.len(), 0, "parent should have no direct tasks");
}

#[test]
fn tests_no_url_groups_as_other() {
    let db = Board::new();
    let parent = db.create_epic("Reviews", "", None).unwrap();

    let items = vec![FeedItem {
        external_id: "x".into(),
        title: "X".into(),
        description: String::new(),
        url: String::new(),
        url_type: None,
        status: TaskStatus::Backlog,
        tag: TaskTag::Bug,
        labels: vec![],
        sort_order: None,
        signals: vec![],
        wrap_up_mode: None,
    }];

    sync_grouped_feed(&db, parent.id, entries(&items, &[""], &["main"]));

    let subs = db.list_sub_epics(parent.id).unwrap();
    assert_eq!(subs.len(), 1);
    assert_eq!(subs[0].title, "other");
}

#[test]
fn tests_existing_active_sub_epic_reused() {
    let db = Board::new();
    let parent = db.create_epic("Reviews", "", None).unwrap();

    let pre_existing = db.create_epic("repo-a", "", Some(parent.id)).unwrap();

    let items = vec![make_item("1", "https://github.com/org/repo-a/pull/1")];

    let outcome = sync_grouped_feed(&db, parent.id, entries(&items, &[""], &["main"]));
    let sub_ids: Vec<_> = outcome
        .affected_epics
        .iter()
        .copied()
        .filter(|id| *id != parent.id)
        .collect();

    assert_eq!(
        sub_ids,
        vec![pre_existing.id],
        "should reuse existing active sub-epic"
    );
    let subs = db.list_sub_epics(parent.id).unwrap();
    assert_eq!(subs.len(), 1, "no duplicate sub-epic should be created");
}

#[test]
fn tests_run_feed_sync_flat_upserts_to_parent_epic() {
    let db = Board::new();
    let epic = db.create_epic("Feed", "", None).unwrap();
    let items = vec![FeedItem {
        external_id: "1".into(),
        title: "T".into(),
        description: String::new(),
        url: String::new(),
        url_type: None,
        status: TaskStatus::Backlog,
        tag: TaskTag::Bug,
        labels: vec![],
        sort_order: None,
        signals: vec![],
        wrap_up_mode: None,
    }];

    let outcome = run_feed_sync(&db, epic.id, false, entries(&items, &[""], &["main"]))
        .unwrap();

    assert_eq!(outcome.affected_epics, vec![epic.id]);
    let tasks = db.list_tasks_for_epic(epic.id).unwrap();
    assert_eq!(tasks.len(), 1);
    assert_eq!(tasks[0].external_id.as_deref(), Some("1"));
}

#[test]
fn tests_run_feed_sync_grouped_puts_tasks_in_sub_epics() {
    let db = Board::new();
    let epic = db.create_epic("Reviews", "", None).unwrap();
    let items = vec![FeedItem {
        external_id: "pr-1".into(),
        title: "PR 1".into(),
        description: String::new(),
        url: "https://github.com/org/repo-a/pull/1".into(),
        url_type: None,
        status: TaskStatus::Backlog,
        tag: TaskTag::PrReview,
        labels: vec![],
        sort_order: None,
        signals: vec![],
        wrap_up_mode: None,
    }];

    let outcome = run_feed_sync(&db, epic.id, true, entries(&items, &[""], &["main"]))
        .unwrap();

    assert!(outcome.affected_epics.contains(&epic.id));
    assert_eq!(outcome.affected_epics.len(), 2, "parent id + 1 sub-epic id");

    let parent_tasks = db.list_tasks_for_epic(epic.id).unwrap();
    assert_eq!(parent_tasks.len(), 0, "parent should have no direct tasks");

    let sub_epics = db.list_sub_epics(epic.id).unwrap();
    assert_eq!(sub_epics.len(), 1);
    assert_eq!(sub_epics[0].title, "repo-a");
    let sub_tasks = db.list_tasks_for_epic(sub_epics[0].id).unwrap();
    assert_eq!(sub_tasks.len(), 1);
}

#[test]
fn tests_sync_grouped_feed_empty_emission_clears_all_sub_epics() {
    let db = Board::new();
    let parent = db.create_epic("Reviews", "", None).unwrap();

    let items = vec![
        make_item("1", "https://github.com/org/repo-a/pull/1"),
        make_item("2", "https://github.com/org/repo-b/pull/1"),
    ];
    sync_grouped_feed(
        &db,
        parent.id,
        entries(&items, &["", ""], &["main", "main"]),
    );

    assert_eq!(db.list_sub_epics(parent.id).unwrap().len(), 2);

    sync_grouped_feed(&db, parent.id, vec![]);

    let subs = db.list_sub_epics(parent.id).unwrap();
    assert_eq!(
        subs.len(),
        2,
        "sub-epic rows remain, only their tasks clear"
    );
    for sub in &subs {
        let tasks = db.list_tasks_for_epic(sub.id).unwrap();
        assert_eq!(
            tasks.len(),
            0,
            "sub-epic {} should have no feed tasks after empty emission",
            sub.title
        );
    }
}

#[test]
fn tests_sync_grouped_feed_partial_emission_clears_dropped_repo() {
    let db = Board::new();
    let parent = db.create_epic("Reviews", "", None).unwrap();

    let items = vec![
        make_item("1", "https://github.com/org/repo-a/pull/1"),
        make_item("2", "https://github.com/org/repo-b/pull/1"),
    ];
    sync_grouped_feed(
        &db,
        parent.id,
        entries(&items, &["", ""], &["main", "main"]),
    );

    let items2 = vec![make_item("1", "https://github.com/org/repo-a/pull/1")];
    sync_grouped_feed(&db, parent.id, entries(&items2, &[""], &["main"]));

    let subs = db.list_sub_epics(parent.id).unwrap();
    let repo_a = subs.iter().find(|e| e.title == "repo-a").unwrap();
    let repo_b = subs.iter().find(|e| e.title == "repo-b").unwrap();
    assert_eq!(
        db.list_tasks_for_epic(repo_a.id).unwrap().len(),
        1,
        "repo-a still in feed, task kept"
    );
    assert_eq!(
        db.list_tasks_for_epic(repo_b.id).unwrap().len(),
        0,
        "repo-b dropped out, task cleared"
    );
}

#[test]
fn tests_role_routed_group_by_repo_off_rehomes_repo_tasks_no_duplicate() {
    let db = Board::new();
    let parent = db.create_epic("Reviews", "", None).unwrap();
    db.patch_epic(
        parent.id,
        &EpicPatch::new().feed_role(FeedRole::ReviewsParent),
    )
    .unwrap();

    let items = vec![make_signal_item(
        "pr-1",
        "https://github.com/org/myrepo/pull/1",
        vec![Signal::TeamRequest],
    )];

    run_role_routed_feed_sync(&db, parent.id, entries(&items, &[""], &["main"]))
        .unwrap();

    let team = role_sub_epic(&db, parent.id, FeedRole::TeamReviews);

    db.patch_epic(team, &EpicPatch::new().group_by_repo(true))
        .unwrap();
    run_role_routed_feed_sync(&db, parent.id, entries(&items, &[""], &["main"]))
        .unwrap();

    let repo_subs = db.list_sub_epics(team).unwrap();
    assert_eq!(repo_subs.len(), 1);
    assert_eq!(
        db.list_tasks_for_epic(repo_subs[0].id).unwrap().len(),
        1
    );
    assert!(db.list_tasks_for_epic(team).unwrap().is_empty());

    db.patch_epic(team, &EpicPatch::new().group_by_repo(false))
        .unwrap();
    run_role_routed_feed_sync(&db, parent.id, entries(&items, &[""], &["main"]))
        .unwrap();

    let team_tasks = db.list_tasks_for_epic(team).unwrap();
    assert_eq!(
        team_tasks.len(),
        1,
        "exactly one task on role sub-epic after toggle-off cycle"
    );
    assert_eq!(team_tasks[0].external_id.as_deref(), Some("pr-1"));

    for sub in db.list_sub_epics(team).unwrap() {
        assert!(
            db.list_tasks_for_epic(sub.id).unwrap().is_empty(),
            "repo-group sub-epic {} must be empty after group_by_repo turned off",
            sub.title
        );
    }
}

#[test]
fn tests_role_routed_orphaned_repo_tasks_rehosted_on_next_sync() {
    let db = Board::new();
    let parent = db.create_epic("Reviews", "", None).unwrap();
    db.patch_epic(
        parent.id,
        &EpicPatch::new().feed_role(FeedRole::ReviewsParent),
    )
    .unwrap();

    let team = db.create_epic("Team Reviews", "", Some(parent.id)).unwrap().id;
    db.patch_epic(team, &EpicPatch::new().feed_role(FeedRole::TeamReviews)).unwrap();
    let repo_sub_id = db.create_repo_group_sub_epic(team, "myrepo").unwrap();
    db.upsert_feed_tasks(
        repo_sub_id,
        &[make_item("pr-1", "https://github.com/org/myrepo/pull/1")],
        &["/r".into()],
        &["main".into()],
    )
    .unwrap();

    let items = vec![make_signal_item(
        "pr-1",
        "https://github.com/org/myrepo/pull/1",
        vec![Signal::TeamRequest],
    )];
    run_role_routed_feed_sync(&db, parent.id, entries(&items, &[""], &["main"]))
        .unwrap();

    let team_tasks = db.list_tasks_for_epic(team).unwrap();
    assert_eq!(team_tasks.len(), 1, "task re-homed to role sub-epic");
    assert_eq!(team_tasks[0].external_id.as_deref(), Some("pr-1"));
    assert!(
        db.list_tasks_for_epic(repo_sub_id)
            .unwrap()
            .is_empty(),
        "orphaned repo-group sub-epic now empty"
    );
}

#[test]
fn tests_sync_grouped_feed_preserves_manual_task_in_dropped_sub_epic() {
    let db = Board::new();
    let parent = db.create_epic("Reviews", "", None).unwrap();

    let items = vec![make_item("1", "https://github.com/org/repo-a/pull/1")];
    sync_grouped_feed(&db, parent.id, entries(&items, &[""], &["main"]));

    let subs = db.list_sub_epics(parent.id).unwrap();
    let repo_a = subs.iter().find(|e| e.title == "repo-a").unwrap();

    let manual_id = create_manual_task(&db, "Manual", repo_a.id);

    sync_grouped_feed(&db, parent.id, vec![]);

    let tasks = db.list_tasks_for_epic(repo_a.id).unwrap();
    assert_eq!(tasks.len(), 1, "only the manual task survives");
    assert_eq!(tasks[0].id, manual_id);
}

#[test]
fn flat_sync_rehomes_tasks_from_existing_repo_group_subepic_and_deletes_it() {
    let db = Board::new();
    let parent = db.create_epic("CVE", "", None).unwrap();

    let sub = db
        .create_repo_group_sub_epic(parent.id, "myrepo")
        .unwrap();
    let seed = vec![make_item("cve-1", "https://github.com/org/myrepo/pull/1")];
    db.upsert_feed_tasks(sub, &seed, &["".into()], &["main".into()])
        .unwrap();
    let pre_existing = db.list_tasks_for_epic(sub).unwrap().remove(0);

    let items = vec![make_item("cve-1", "https://github.com/org/myrepo/pull/1")];
    run_feed_sync(&db, parent.id, false, entries(&items, &[""], &["main"]))
        .unwrap();

    let parent_tasks = db.list_tasks_for_epic(parent.id).unwrap();
    assert_eq!(parent_tasks.len(), 1, "task re-homed onto the parent");
    assert_eq!(
        parent_tasks[0].id, pre_existing.id,
        "re-home is a move (same task row), not a delete+recreate"
    );
    assert_eq!(parent_tasks[0].external_id.as_deref(), Some("cve-1"));

    assert!(
        db.get_epic(sub).unwrap().is_none(),
        "emptied RepoGroup sub-epic is deleted"
    );
}

#[test]
fn flat_sync_with_no_repo_group_subepics_is_unaffected() {
    let db = Board::new();
    let parent = db.create_epic("CVE", "", None).unwrap();

    let items = vec![make_item("cve-2", "https://github.com/org/other/pull/2")];
    run_feed_sync(&db, parent.id, false, entries(&items, &[""], &["main"]))
        .unwrap();

    let parent_tasks = db.list_tasks_for_epic(parent.id).unwrap();
    assert_eq!(parent_tasks.len(), 1, "flat upsert still lands on parent");
    assert_eq!(parent_tasks[0].external_id.as_deref(), Some("cve-2"));
    assert!(
        db.list_sub_epics(parent.id).unwrap().is_empty(),
        "no sub-epics created or left behind"
    );
}

#[test]
fn flat_sync_preserves_manual_sub_epic() {
    let db = Board::new();
    let parent = db.create_epic("CVE", "", None).unwrap();
    let manual = db.create_epic("notes", "", Some(parent.id)).unwrap();
    let manual_task = create_manual_task(&db, "Manual note", manual.id);

    let items = vec![make_item("cve-3", "https://github.com/org/other/pull/3")];
    run_feed_sync(&db, parent.id, false, entries(&items, &[""], &["main"]))
        .unwrap();

    assert!(
        db.get_epic(manual.id).unwrap().is_some(),
        "manual sub-epic survives flat-path reconciliation"
    );
    let manual_tasks = db.list_tasks_for_epic(manual.id).unwrap();
    assert_eq!(manual_tasks.len(), 1, "manual task stays put");
    assert_eq!(manual_tasks[0].id, manual_task);
}

#[test]
fn additive_role_routed_sync_keeps_a_task_absent_from_the_emission() {
    let db = Board::new();
    let parent = db.create_epic("Reviews", "", None).unwrap();
    db.patch_epic(
        parent.id,
        &EpicPatch::new().feed_role(FeedRole::ReviewsParent),
    )
    .unwrap();

    let cycle1 = vec![
        make_signal_item(
            "pr-1",
            "https://github.com/org/repo/pull/1",
            vec![Signal::DirectRequest],
        ),
        make_signal_item(
            "pr-2",
            "https://github.com/org/repo/pull/2",
            vec![Signal::DirectRequest],
        ),
    ];
    run_role_routed_feed_sync(
        &db,
        parent.id,
        entries(&cycle1, &["", ""], &["main", "main"]),
    )
    .unwrap();

    let my = role_sub_epic(&db, parent.id, FeedRole::MyReviews);
    let live = db
        .list_tasks_for_epic(my)
        .unwrap()
        .into_iter()
        .find(|t| t.external_id.as_deref() == Some("pr-1"))
        .unwrap();
    db.patch_task(
        live.id,
        &TaskPatch::new()
            .status(TaskStatus::Running)
            .sub_status(SubStatus::Active)
            .worktree(Some("/tmp/wt-pr-1"))
            .tmux_window(Some("dispatch:7")),
    )
    .unwrap();

    let cycle2 = vec![make_signal_item(
        "pr-2",
        "https://github.com/org/repo/pull/2",
        vec![Signal::DirectRequest],
    )];
    let outcome = role_routed_sync(
        &db,
        parent.id,
        entries(&cycle2, &[""], &["main"]),
        SyncMode::Additive,
    )
    .unwrap();

    let tasks = db.list_tasks_for_epic(my).unwrap();
    let survivor = tasks
        .iter()
        .find(|t| t.external_id.as_deref() == Some("pr-1"))
        .expect("a task omitted by a degraded emission must not be deleted");
    assert_eq!(survivor.worktree.as_deref(), Some("/tmp/wt-pr-1"));
    assert_eq!(survivor.status, TaskStatus::Running);
    assert!(
        outcome.removed.is_empty(),
        "an additive sync reports nothing for teardown, got {:?}",
        outcome.removed
    );
}

#[test]
fn additive_role_routed_sync_keeps_parent_stranded_tasks() {
    let db = Board::new();
    let parent = db.create_epic("Reviews", "", None).unwrap();
    db.patch_epic(
        parent.id,
        &EpicPatch::new().feed_role(FeedRole::ReviewsParent),
    )
    .unwrap();

    db.upsert_feed_tasks(
        parent.id,
        &[make_item("stranded", "https://github.com/org/repo/pull/9")],
        &["".to_string()],
        &["main".to_string()],
    )
    .unwrap();

    let items = vec![make_signal_item(
        "pr-2",
        "https://github.com/org/repo/pull/2",
        vec![Signal::DirectRequest],
    )];
    role_routed_sync(
        &db,
        parent.id,
        entries(&items, &[""], &["main"]),
        SyncMode::Additive,
    )
    .unwrap();

    let on_parent = db.list_tasks_for_epic(parent.id).unwrap();
    assert_eq!(
        on_parent.len(),
        1,
        "the parent sweep must not run on a degraded cycle, got {on_parent:?}"
    );
    assert_eq!(on_parent[0].external_id.as_deref(), Some("stranded"));
}

#[test]
fn additive_role_routed_sync_still_moves_and_inserts() {
    let db = Board::new();
    let parent = db.create_epic("Reviews", "", None).unwrap();

    let cycle1 = vec![make_signal_item(
        "pr-1",
        "https://github.com/org/repo/pull/1",
        vec![Signal::TeamRequest],
    )];
    run_role_routed_feed_sync(&db, parent.id, entries(&cycle1, &[""], &["main"]))
        .unwrap();

    let cycle2 = vec![
        make_signal_item(
            "pr-1",
            "https://github.com/org/repo/pull/1",
            vec![Signal::Reviewed],
        ),
        make_signal_item(
            "pr-new",
            "https://github.com/org/repo/pull/5",
            vec![Signal::DirectRequest],
        ),
    ];
    role_routed_sync(
        &db,
        parent.id,
        entries(&cycle2, &["", ""], &["main", "main"]),
        SyncMode::Additive,
    )
    .unwrap();

    let my = role_sub_epic(&db, parent.id, FeedRole::MyReviews);
    let team = role_sub_epic(&db, parent.id, FeedRole::TeamReviews);
    let my_ids: Vec<String> = db
        .list_tasks_for_epic(my)
        .unwrap()
        .into_iter()
        .filter_map(|t| t.external_id)
        .collect();
    assert!(my_ids.contains(&"pr-1".to_string()), "move still applied");
    assert!(
        my_ids.contains(&"pr-new".to_string()),
        "first-sight insert still applied"
    );
    assert!(
        db.list_tasks_for_epic(team).unwrap().is_empty(),
        "the moved task left its old role sub-epic, and nothing was deleted to \
         achieve that"
    );
}

#[test]
fn additive_grouped_sync_keeps_tasks_in_a_dropped_repo_sub_epic() {
    let db = Board::new();
    let parent = db.create_epic("Reviews", "", None).unwrap();

    let items = vec![
        make_item("1", "https://github.com/org/repo-a/pull/1"),
        make_item("2", "https://github.com/org/repo-b/pull/1"),
    ];
    sync_grouped_feed(
        &db,
        parent.id,
        entries(&items, &["", ""], &["main", "main"]),
    );

    let degraded = vec![make_item("1", "https://github.com/org/repo-a/pull/1")];
    let outcome = grouped_sync(
        &db,
        parent.id,
        entries(&degraded, &[""], &["main"]),
        SyncMode::Additive,
    );

    let subs = db.list_sub_epics(parent.id).unwrap();
    let repo_b = subs.iter().find(|e| e.title == "repo-b").unwrap();
    assert_eq!(
        db.list_tasks_for_epic(repo_b.id).unwrap().len(),
        1,
        "a repo absent from a degraded emission keeps its tasks"
    );
    assert!(outcome.removed.is_empty());
}

#[test]
fn additive_flat_sync_keeps_a_task_absent_from_the_emission() {
    let db = Board::new();
    let epic = db.create_epic("CVE", "", None).unwrap();

    let items = vec![make_item("cve-1", ""), make_item("cve-2", "")];
    run_feed_sync(
        &db,
        epic.id,
        false,
        entries(&items, &["", ""], &["main", "main"]),
    )
    .unwrap();

    let degraded = vec![make_item("cve-2", "")];
    let outcome = feed_sync(
        &db,
        epic.id,
        false,
        entries(&degraded, &[""], &["main"]),
        SyncMode::Additive,
    )
    .unwrap();

    let ids: Vec<String> = db
        .list_tasks_for_epic(epic.id)
        .unwrap()
        .into_iter()
        .filter_map(|t| t.external_id)
        .collect();
    assert_eq!(ids.len(), 2, "nothing removed on a degraded flat sync");
    assert!(ids.contains(&"cve-1".to_string()));
    assert!(outcome.removed.is_empty());
}

#[test]
fn role_routed_drops_own_authored_pr_entirely() {
    let db = Board::new();
    let parent = db.create_epic("Reviews", "", None).unwrap();
    db.patch_epic(
        parent.id,
        &EpicPatch::new().feed_role(FeedRole::ReviewsParent),
    )
    .unwrap();

    let items = vec![
        make_signal_item(
            "pr-mine",
            "https://github.com/org/repo/pull/1",
            vec![Signal::Reviewed, Signal::AuthorMe],
        ),
        make_signal_item(
            "pr-theirs",
            "https://github.com/org/repo/pull/2",
            vec![Signal::DirectRequest],
        ),
    ];

    run_role_routed_feed_sync(
        &db,
        parent.id,
        entries(&items, &["", ""], &["main", "main"]),
    )
    .unwrap();

    let my = role_sub_epic(&db, parent.id, FeedRole::MyReviews);
    let team = role_sub_epic(&db, parent.id, FeedRole::TeamReviews);
    let bots = role_sub_epic(&db, parent.id, FeedRole::Bots);

    let my_ids: Vec<String> = db
        .list_tasks_for_epic(my)
        .unwrap()
        .into_iter()
        .filter_map(|t| t.external_id)
        .collect();
    assert_eq!(
        my_ids,
        vec!["pr-theirs".to_string()],
        "an own-authored PR must not reach My Reviews"
    );
    assert!(db.list_tasks_for_epic(team).unwrap().is_empty());
    assert!(
        db.list_tasks_for_epic(bots).unwrap().is_empty(),
        "an excluded PR is dropped, not rerouted to Bots"
    );
    assert!(
        db.list_tasks_for_epic(parent.id).unwrap().is_empty(),
        "an excluded PR must not be stranded on the parent either"
    );
}

#[test]
fn role_routed_drops_own_authored_pr_even_with_team_and_bot_signals() {
    let db = Board::new();
    let parent = db.create_epic("Reviews", "", None).unwrap();
    db.patch_epic(
        parent.id,
        &EpicPatch::new().feed_role(FeedRole::ReviewsParent),
    )
    .unwrap();

    let items = vec![make_signal_item(
        "pr-mine",
        "https://github.com/org/repo/pull/1",
        vec![Signal::AuthorMe, Signal::TeamRequest, Signal::AuthorBot],
    )];

    run_role_routed_feed_sync(&db, parent.id, entries(&items, &[""], &["main"]))
        .unwrap();

    for role in [FeedRole::MyReviews, FeedRole::TeamReviews, FeedRole::Bots] {
        let sub = role_sub_epic(&db, parent.id, role);
        assert!(
            db.list_tasks_for_epic(sub).unwrap().is_empty(),
            "{role:?} must be empty — the author_me exclusion is unconditional"
        );
    }
}

#[test]
fn role_routed_drops_settled_approved_pr_entirely() {
    let db = Board::new();
    let parent = db.create_epic("Reviews", "", None).unwrap();
    db.patch_epic(
        parent.id,
        &EpicPatch::new().feed_role(FeedRole::ReviewsParent),
    )
    .unwrap();

    let items = vec![
        make_signal_item(
            "pr-approved",
            "https://github.com/org/repo/pull/1",
            vec![Signal::Reviewed, Signal::Approved],
        ),
        make_signal_item(
            "pr-approved-bot",
            "https://github.com/org/repo/pull/2",
            vec![Signal::AuthorBot, Signal::Approved],
        ),
        make_signal_item(
            "pr-open",
            "https://github.com/org/repo/pull/3",
            vec![Signal::Reviewed],
        ),
    ];

    run_role_routed_feed_sync(
        &db,
        parent.id,
        entries(&items, &["", "", ""], &["main", "main", "main"]),
    )
    .unwrap();

    let my = role_sub_epic(&db, parent.id, FeedRole::MyReviews);
    let team = role_sub_epic(&db, parent.id, FeedRole::TeamReviews);
    let bots = role_sub_epic(&db, parent.id, FeedRole::Bots);

    let my_ids: Vec<String> = db
        .list_tasks_for_epic(my)
        .unwrap()
        .into_iter()
        .filter_map(|t| t.external_id)
        .collect();
    assert_eq!(
        my_ids,
        vec!["pr-open".to_string()],
        "an approved PR must not reach My Reviews"
    );
    assert!(db.list_tasks_for_epic(team).unwrap().is_empty());
    assert!(
        db.list_tasks_for_epic(bots).unwrap().is_empty(),
        "an approved bot PR is dropped, not rerouted to Bots"
    );
    assert!(
        db.list_tasks_for_epic(parent.id).unwrap().is_empty(),
        "an excluded PR must not be stranded on the parent either"
    );
}

#[test]
fn role_routed_keeps_approved_pr_with_a_pending_request() {
    let db = Board::new();
    let parent = db.create_epic("Reviews", "", None).unwrap();
    db.patch_epic(
        parent.id,
        &EpicPatch::new().feed_role(FeedRole::ReviewsParent),
    )
    .unwrap();

    let items = vec![
        make_signal_item(
            "pr-rerequested",
            "https://github.com/org/repo/pull/1",
            vec![Signal::Reviewed, Signal::Approved, Signal::DirectRequest],
        ),
        make_signal_item(
            "pr-team-rerequested",
            "https://github.com/org/repo/pull/2",
            vec![Signal::Approved, Signal::TeamRequest],
        ),
    ];

    run_role_routed_feed_sync(
        &db,
        parent.id,
        entries(&items, &["", ""], &["main", "main"]),
    )
    .unwrap();

    let my = role_sub_epic(&db, parent.id, FeedRole::MyReviews);
    let team = role_sub_epic(&db, parent.id, FeedRole::TeamReviews);

    let my_ids: Vec<String> = db
        .list_tasks_for_epic(my)
        .unwrap()
        .into_iter()
        .filter_map(|t| t.external_id)
        .collect();
    assert_eq!(my_ids, vec!["pr-rerequested".to_string()]);

    let team_ids: Vec<String> = db
        .list_tasks_for_epic(team)
        .unwrap()
        .into_iter()
        .filter_map(|t| t.external_id)
        .collect();
    assert_eq!(team_ids, vec!["pr-team-rerequested".to_string()]);
}

fn assert_newly_excluded_pr_loses_its_task(before: Vec<Signal>, after: Vec<Signal>) {
    let db = Board::new();
    let parent = db.create_epic("Reviews", "", None).unwrap();
    db.patch_epic(
        parent.id,
        &EpicPatch::new().feed_role(FeedRole::ReviewsParent),
    )
    .unwrap();

    let url = "https://github.com/org/repo/pull/1";
    let cycle1 = vec![make_signal_item("pr-1", url, before)];
    run_role_routed_feed_sync(&db, parent.id, entries(&cycle1, &[""], &["main"]))
        .unwrap();

    let my = role_sub_epic(&db, parent.id, FeedRole::MyReviews);
    assert_eq!(
        db.list_tasks_for_epic(my).unwrap().len(),
        1,
        "precondition: the PR is in My Reviews before the exclusion applies"
    );

    let manual_id = create_manual_task(&db, "Manual", my);

    let cycle2 = vec![make_signal_item("pr-1", url, after)];
    run_role_routed_feed_sync(&db, parent.id, entries(&cycle2, &[""], &["main"]))
        .unwrap();

    let remaining = db.list_tasks_for_epic(my).unwrap();
    assert_eq!(
        remaining.iter().map(|t| t.id).collect::<Vec<_>>(),
        vec![manual_id],
        "the feed task is deleted and only the manual task remains"
    );
    assert_eq!(
        remaining[0].external_id, None,
        "the survivor is the manual (non-feed) task"
    );
}

#[test]
fn role_routed_removes_existing_task_for_own_authored_pr() {
    assert_newly_excluded_pr_loses_its_task(
        vec![Signal::DirectRequest],
        vec![Signal::DirectRequest, Signal::AuthorMe],
    );
}

#[test]
fn role_routed_removes_existing_task_for_approved_pr() {
    assert_newly_excluded_pr_loses_its_task(
        vec![Signal::Reviewed],
        vec![Signal::Reviewed, Signal::Approved],
    );
}

#[test]
fn additive_role_routed_sync_does_not_insert_own_authored_pr() {
    let db = Board::new();
    let parent = db.create_epic("Reviews", "", None).unwrap();
    db.patch_epic(
        parent.id,
        &EpicPatch::new().feed_role(FeedRole::ReviewsParent),
    )
    .unwrap();

    let items = vec![make_signal_item(
        "pr-mine",
        "https://github.com/org/repo/pull/1",
        vec![Signal::DirectRequest, Signal::AuthorMe],
    )];

    role_routed_sync(
        &db,
        parent.id,
        entries(&items, &[""], &["main"]),
        SyncMode::Additive,
    )
    .unwrap();

    let my = role_sub_epic(&db, parent.id, FeedRole::MyReviews);
    assert!(
        db.list_tasks_for_epic(my).unwrap().is_empty(),
        "an excluded item is not inserted on the additive path either"
    );
}

// Beyond the board's look: what is asked, in which order, and what an error does

fn reviews_board() -> (Board, EpicId) {
    let db = Board::new();
    let parent = db.create_epic("Reviews", "", None).unwrap().id;
    db.patch_epic(parent, &EpicPatch::new().feed_role(FeedRole::ReviewsParent))
        .unwrap();
    (db, parent)
}

#[test]
fn a_misplaced_task_is_moved_before_anything_is_removed() {
    let (db, parent) = reviews_board();
    let url = "https://github.com/org/repo/pull/1";
    let first = vec![make_signal_item("pr-1", url, vec![Signal::TeamRequest])];
    run_role_routed_feed_sync(&db, parent, entries(&first, &[""], &["main"])).unwrap();
    db.log.borrow_mut().clear();
    let second = vec![make_signal_item("pr-1", url, vec![Signal::DirectRequest])];
    run_role_routed_feed_sync(&db, parent, entries(&second, &[""], &["main"])).unwrap();
    let kinds = db.kinds();
    let moved = kinds.iter().position(|kind| *kind == "move").unwrap();
    let removal = kinds
        .iter()
        .position(|kind| *kind == "upsert" || *kind == "delete stale")
        .unwrap();
    assert!(moved < removal, "{kinds:?}");
}

#[test]
fn a_moved_task_keeps_its_order_and_gets_the_latest_words() {
    let (db, parent) = reviews_board();
    let url = "https://github.com/org/repo/pull/1";
    let first = FeedItem {
        sort_order: Some(3),
        ..make_signal_item("pr-1", url, vec![Signal::TeamRequest])
    };
    run_role_routed_feed_sync(&db, parent, entries(&[first], &[""], &["main"])).unwrap();
    let second = FeedItem {
        title: "New title".to_string(),
        labels: vec!["urgent".to_string()],
        ..make_signal_item("pr-1", url, vec![Signal::DirectRequest])
    };
    run_role_routed_feed_sync(&db, parent, entries(&[second], &[""], &["main"])).unwrap();
    let my = role_sub_epic(&db, parent, FeedRole::MyReviews);
    let task = db.list_tasks_for_epic(my).unwrap().remove(0);
    assert_eq!(task.sort_order, Some(3));
    assert_eq!(task.title, "New title");
    assert_eq!(task.labels, vec!["urgent"]);
}

#[test]
fn an_additive_sync_never_asks_for_a_removal() {
    let (db, parent) = reviews_board();
    let items = vec![make_signal_item(
        "pr-1",
        "https://github.com/org/repo/pull/1",
        vec![Signal::TeamRequest],
    )];
    let entries = entries(&items, &[""], &["main"]);
    role_routed_sync(&db, parent, entries.clone(), SyncMode::Additive).unwrap();
    grouped_sync(&db, parent, entries.clone(), SyncMode::Additive);
    feed_sync(&db, parent, false, entries, SyncMode::Additive).unwrap();
    assert!(
        !db.kinds()
            .iter()
            .any(|kind| *kind == "upsert" || *kind == "delete stale"),
        "{:?}",
        db.kinds()
    );
}

#[test]
fn the_roles_have_their_titles() {
    let (db, parent) = reviews_board();
    run_role_routed_feed_sync(&db, parent, vec![]).unwrap();
    let titles: Vec<String> = db
        .list_sub_epics(parent)
        .unwrap()
        .into_iter()
        .map(|epic| epic.title)
        .collect();
    assert_eq!(titles, vec!["My Reviews", "Team Reviews", "Bots"]);
}

#[test]
fn a_store_that_cannot_list_fails_a_reviews_sync() {
    let (db, parent) = reviews_board();
    *db.broken.borrow_mut() = Some("list sub-epics");
    assert_eq!(
        run_role_routed_feed_sync(&db, parent, vec![]).unwrap_err(),
        "out of order"
    );
}

#[test]
fn a_role_with_a_feed_command_is_refused() {
    let db = Board::new();
    let epic = db.create_epic("My Reviews", "", None).unwrap().id;
    for role in [FeedRole::MyReviews, FeedRole::TeamReviews, FeedRole::Bots] {
        assert_eq!(
            run_feed_sync_by_role(&db, epic, role, false, vec![]).unwrap_err(),
            sync::ROLE_WITH_COMMAND
        );
    }
    assert!(db.log.borrow().is_empty());
}

#[test]
fn two_items_with_one_name_give_one_task() {
    let (db, parent) = reviews_board();
    let url = "https://github.com/org/repo/pull/1";
    let items = vec![
        make_signal_item("pr-1", url, vec![Signal::DirectRequest]),
        make_signal_item("pr-1", url, vec![Signal::DirectRequest]),
    ];
    run_role_routed_feed_sync(
        &db,
        parent,
        entries(&items, &["", ""], &["main", "main"]),
    )
    .unwrap();
    let my = role_sub_epic(&db, parent, FeedRole::MyReviews);
    assert_eq!(db.list_tasks_for_epic(my).unwrap().len(), 1);
}

#[test]
fn pairing_and_parting_lose_nothing() {
    let items = vec![make_item("1", "u"), make_item("2", "v")];
    let paths = vec!["/a".to_string(), "/b".to_string()];
    let branches = vec!["main".to_string(), "develop".to_string()];
    let paired = FeedItemWithTarget::zip(items, paths.clone(), branches.clone());
    assert_eq!(paired[1].item.external_id, "2");
    assert_eq!(paired[1].repo_path, "/b");
    assert_eq!(paired[1].base_branch, "develop");
    let (items, paths_again, branches_again) = FeedItemWithTarget::unzip(&paired);
    assert_eq!(items[0].external_id, "1");
    assert_eq!(paths_again, paths);
    assert_eq!(branches_again, branches);
}

// Cycles and the runner

/// What a shell makes of the few commands that are used here.
fn shell(command: &str) -> FeedOutput {
    let mut stdout = String::new();
    let mut stderr = String::new();
    for part in command.split("; ") {
        if part == "exit 1" {
            return FeedOutput::Exited {
                code: Some(1),
                stdout: vec![],
                stderr: String::new(),
            };
        } else if part.starts_with("cat ") {
            return FeedOutput::TimedOut;
        }
        let quoted = part.strip_prefix("echo '").expect("an echo");
        match quoted.strip_suffix("' >&2") {
            Some(words) => stderr.push_str(words),
            None => stdout.push_str(quoted.strip_suffix("'").expect("a closing quote")),
        }
    }
    FeedOutput::Exited {
        code: Some(0),
        stdout: stdout.into_bytes(),
        stderr,
    }
}

/// A feed runner with its board, where time stands still unless it is moved.
struct Runner<'a> {
    db: &'a Board,
    feed: FeedRunner,
    epic_changed: bool,
    now_millis: u64,
    branches: Vec<(&'static str, &'static str)>,
    /// The repositories that were asked for their default branch.
    asked: Vec<String>,
    /// The commands that were run.
    ran: Vec<String>,
    /// The epics that other cycles have.
    taken: Vec<EpicId>,
    torn_down: Vec<TaskId>,
    events: Vec<EpicId>,
    unreadable: bool,
}

impl<'a> Runner<'a> {
    fn new(db: &'a Board) -> Runner<'a> {
        Runner {
            db,
            feed: FeedRunner::new(),
            epic_changed: false,
            now_millis: 1_000_000,
            branches: vec![],
            asked: vec![],
            ran: vec![],
            taken: vec![],
            torn_down: vec![],
            events: vec![],
            unreadable: false,
        }
    }

    fn calls_for(&self, path: &str) -> usize {
        self.asked.iter().filter(|asked| *asked == path).count()
    }

    fn tick(&mut self) {
        let changed = self.epic_changed;
        self.epic_changed = false;
        if !self.feed.begin_tick(changed) {
            return;
        }
        let epics = self.db.list_epics();
        for id in self.feed.tick(&epics, self.now_millis) {
            if let FeedCycleOutcome::Synced { affected_epics, .. } = self.cycle(id) {
                self.events.extend(affected_epics);
            }
        }
    }

    fn cycle(&mut self, id: EpicId) -> FeedCycleOutcome {
        let mut history = CycleHistory::new(None);
        loop {
            let action = match run_cycle(id, &history) {
                CycleStep::Ask(action) => action,
                CycleStep::Done(outcome) => return outcome,
            };
            match action {
                CycleAction::Claim => history.claimed = Some(!self.taken.contains(&id)),
                CycleAction::ReadEpic => {
                    history.epic = Some(if self.unreadable {
                        EpicReading::Unreadable("no such table: epics".to_string())
                    } else {
                        match self.db.get_epic(id).unwrap() {
                            Some(epic) => EpicReading::Found(epic),
                            None => EpicReading::Missing,
                        }
                    })
                }
                CycleAction::Execute(command) => {
                    history.output = Some(shell(&command));
                    self.ran.push(command);
                }
                CycleAction::ListRepoPaths => {
                    history.known_paths = Some(self.db.repo_paths.borrow().clone())
                }
                CycleAction::Run(command) => {
                    assert_eq!(command.program, "git");
                    let path = command.args[1].clone();
                    let branch = self.branches.iter().find(|(known, _)| *known == path);
                    self.asked.push(path);
                    history.replies.push(match branch {
                        Some((_, branch)) => Reply::Exited {
                            code: Some(0),
                            stdout: format!("refs/remotes/origin/{branch}\n"),
                            stderr: String::new(),
                        },
                        None => Reply::Exited {
                            code: Some(128),
                            stdout: String::new(),
                            stderr: "unknown repo".to_string(),
                        },
                    });
                }
                CycleAction::Store(action) => history.store.push(self.db.perform(&action)),
                CycleAction::Recalculate => {
                    self.db.recalculate(id);
                    history.recalculated = true;
                }
                CycleAction::TearDown(task) => {
                    self.torn_down.push(task.id);
                    history.torn_down += 1;
                }
            }
        }
    }
}

fn role_sub(subs: &[Epic], role: FeedRole) -> &Epic {
    subs.iter()
        .find(|e| e.feed_role == role)
        .unwrap_or_else(|| panic!("missing {role:?} sub-epic in {subs:?}"))
}

#[test]
fn mod_tick_interval_not_elapsed_skips_command() {
    let db = Board::new();
    let epic = db.create_epic("Interval Epic", "", None).unwrap();
    db.patch_epic(
        epic.id,
        &EpicPatch::new()
            .feed_command(Some(
                r#"echo '[{"external_id":"1","title":"T","description":"","status":"backlog","tag":"bug"}]'"#,
            ))
            .feed_interval_secs(Some(10000)),
    )
    .unwrap();

    let mut runner = Runner::new(&db);
    runner.tick();
    runner.tick();
    assert_eq!(runner.ran.len(), 1, "{:?}", runner.ran);

    runner.now_millis += 9_999_999;
    runner.tick();
    assert_eq!(runner.ran.len(), 1, "the interval is not over");
    runner.now_millis += 1;
    runner.tick();
    assert_eq!(runner.ran.len(), 2, "the interval is over");
}

#[test]
fn a_feed_without_an_interval_of_its_own_rests_for_half_a_minute() {
    let db = Board::new();
    let epic = db.create_epic("Feed", "", None).unwrap();
    db.patch_epic(epic.id, &EpicPatch::new().feed_command(Some("echo '[]'")))
        .unwrap();
    let mut runner = Runner::new(&db);
    runner.tick();
    runner.now_millis += 29_999;
    runner.tick();
    assert_eq!(runner.ran.len(), 1);
    runner.now_millis += 1;
    runner.tick();
    assert_eq!(runner.ran.len(), 2);
}

#[test]
fn an_epic_that_was_gone_for_a_tick_is_due_again() {
    let db = Board::new();
    let epic = db.create_epic("Feed", "", None).unwrap();
    db.patch_epic(epic.id, &EpicPatch::new().feed_command(Some("echo '[]'")))
        .unwrap();
    let mut feed = FeedRunner::new();
    let epics = db.list_epics();
    assert_eq!(feed.tick(&epics, 0), vec![epic.id]);
    assert_eq!(feed.tick(&epics, 1), vec![]);
    assert_eq!(feed.tick(&vec![], 2), vec![]);
    assert_eq!(feed.tick(&epics, 3), vec![epic.id]);
}

const EMISSION: &str = r#"[{"external_id":"pr-1","title":"PR 1","description":"","status":"backlog","tag":"pr-review"}]"#;

fn reviews_parent_with_command(db: &Board) -> EpicId {
    let epic = db.create_epic("Reviews", "", None).unwrap();
    let cmd = format!("echo '{EMISSION}'");
    db.patch_epic(
        epic.id,
        &EpicPatch::new()
            .feed_role(FeedRole::ReviewsParent)
            .feed_command(Some(cmd.as_str())),
    )
    .unwrap();
    epic.id
}

fn failure(outcome: FeedCycleOutcome) -> String {
    match outcome {
        FeedCycleOutcome::Failed(err) => err,
        FeedCycleOutcome::Synced { count, .. } => {
            panic!("a failed epic read must not sync, but {count} item(s) were synced")
        }
        FeedCycleOutcome::Busy => panic!("nothing else claimed the epic"),
    }
}

#[test]
fn an_archived_epic_runs_no_cycle_even_when_triggered_by_hand() {
    let db = Board::new();
    let epic_id = reviews_parent_with_command(&db);
    db.patch_epic(epic_id, &EpicPatch::new().status(TaskStatus::Archived))
        .unwrap();

    let mut runner = Runner::new(&db);
    let outcome = runner.cycle(epic_id);

    assert!(
        failure(outcome).contains("archived"),
        "the outcome must name the reason, so a hand-triggered refresh says why nothing happened"
    );
    assert!(
        runner.ran.is_empty(),
        "the feed command must not run for an archived epic"
    );
    assert!(db.list_tasks_for_epic(epic_id).unwrap().is_empty());
}

#[test]
fn a_cycle_whose_epic_is_gone_fails_without_running_the_command() {
    let db = Board::new();
    let epic_id = reviews_parent_with_command(&db);
    db.epics.borrow_mut().clear();

    let mut runner = Runner::new(&db);
    let err = failure(runner.cycle(epic_id));

    assert!(
        err.contains("epic no longer exists"),
        "a missing epic must fail as such, got: {err}"
    );
    assert!(
        runner.ran.is_empty(),
        "the failure precedes the exec, so the feed command must never run"
    );
}

#[test]
fn a_cycle_whose_epic_read_errors_fails_without_syncing_anything() {
    let db = Board::new();
    let epic_id = reviews_parent_with_command(&db);

    let mut runner = Runner::new(&db);
    runner.unreadable = true;
    let err = failure(runner.cycle(epic_id));

    assert!(
        err.contains("failed to read epic"),
        "an unreadable epic must fail as such, got: {err}"
    );
    assert!(
        runner.ran.is_empty(),
        "the failure precedes the exec, so the feed command must never run"
    );
    assert!(
        db.list_tasks_for_epic(epic_id).unwrap().is_empty(),
        "no sync may run, so nothing may be stranded flat on the \
         reviews_parent epic"
    );
}

#[test]
fn a_hung_command_times_out_and_the_epic_recovers_on_the_next_cycle() {
    let db = Board::new();
    let epic = db.create_epic("Feed", "", None).unwrap();
    db.patch_epic(
        epic.id,
        &EpicPatch::new().feed_command(Some("cat /tmp/fifo")),
    )
    .unwrap();

    let mut runner = Runner::new(&db);
    let err = failure(runner.cycle(epic.id));
    assert!(
        err.contains("timed out"),
        "a hung command must fail as a timeout, got: {err}"
    );

    db.patch_epic(epic.id, &EpicPatch::new().feed_command(Some("echo '[]'")))
        .unwrap();
    let outcome = runner.cycle(epic.id);
    assert!(
        matches!(outcome, FeedCycleOutcome::Synced { .. }),
        "the epic must recover and sync on the next cycle after a timeout, got a non-Synced outcome"
    );
}

const TWO_RECORDS: &str = r#"[{"external_id":"log-1","title":"warn A","description":"","status":"backlog","tag":"bug"},{"external_id":"log-2","title":"warn B","description":"","status":"backlog","tag":"bug"}]"#;
const ONE_RECORD: &str = r#"[{"external_id":"log-2","title":"warn B","description":"","status":"backlog","tag":"bug"}]"#;

fn flat_feed_epic(db: &Board, emission: &str, append_only: bool) -> EpicId {
    let epic = db.create_epic("Log warnings", "", None).unwrap();
    let cmd = format!("echo '{emission}'");
    db.patch_epic(
        epic.id,
        &EpicPatch::new()
            .feed_command(Some(cmd.as_str()))
            .feed_append_only(append_only),
    )
    .unwrap();
    epic.id
}

fn recycle(db: &Board, epic_id: EpicId, emission: &str) -> FeedCycleOutcome {
    let cmd = format!("echo '{emission}'");
    db.patch_epic(epic_id, &EpicPatch::new().feed_command(Some(cmd.as_str())))
        .unwrap();
    Runner::new(db).cycle(epic_id)
}

fn external_ids(db: &Board, epic_id: EpicId) -> Vec<String> {
    let mut ids: Vec<String> = db
        .list_tasks_for_epic(epic_id)
        .unwrap()
        .into_iter()
        .filter_map(|t| t.external_id)
        .collect();
    ids.sort();
    ids
}

#[test]
fn an_append_only_epic_keeps_a_task_absent_from_the_emission() {
    let db = Board::new();
    let epic_id = flat_feed_epic(&db, TWO_RECORDS, true);

    Runner::new(&db).cycle(epic_id);
    assert_eq!(external_ids(&db, epic_id), ["log-1", "log-2"]);

    recycle(&db, epic_id, ONE_RECORD);

    assert_eq!(
        external_ids(&db, epic_id),
        ["log-1", "log-2"],
        "an append-only feed never removes: log-1 is absent from the emission, not retracted by it"
    );
}

#[test]
fn a_mirroring_epic_still_removes_a_task_absent_from_the_emission() {
    let db = Board::new();
    let epic_id = flat_feed_epic(&db, TWO_RECORDS, false);

    Runner::new(&db).cycle(epic_id);
    assert_eq!(external_ids(&db, epic_id), ["log-1", "log-2"]);

    recycle(&db, epic_id, ONE_RECORD);

    assert_eq!(
        external_ids(&db, epic_id),
        ["log-2"],
        "feed_append_only defaults off, so absence from a trusted emission still removes"
    );
}

#[test]
fn an_append_only_cycle_is_not_reported_as_degraded() {
    let db = Board::new();
    let epic_id = flat_feed_epic(&db, TWO_RECORDS, true);

    match Runner::new(&db).cycle(epic_id) {
        FeedCycleOutcome::Synced { degraded, .. } => assert!(
            degraded.is_none(),
            "withholding removals is this epic's configured behaviour, not a symptom, got: {degraded:?}"
        ),
        _ => panic!("a clean append-only emission must sync"),
    }
}

#[test]
fn an_append_only_epic_still_reports_a_degraded_emission() {
    let db = Board::new();
    let epic_id = flat_feed_epic(&db, TWO_RECORDS, true);
    let cmd = format!("echo '{TWO_RECORDS}'; echo 'scan window truncated' >&2");
    db.patch_epic(epic_id, &EpicPatch::new().feed_command(Some(cmd.as_str())))
        .unwrap();

    match Runner::new(&db).cycle(epic_id) {
        FeedCycleOutcome::Synced { degraded, .. } => assert!(
            degraded.is_some(),
            "append-only does not suppress the degradation report; the command still failed part way"
        ),
        _ => panic!("a non-empty emission must sync even with stderr"),
    }
}

#[test]
fn a_complaint_keeps_what_the_emission_leaves_out() {
    let db = Board::new();
    let epic_id = flat_feed_epic(&db, TWO_RECORDS, false);
    Runner::new(&db).cycle(epic_id);
    let cmd = format!("echo '{ONE_RECORD}'; echo 'half of it failed' >&2");
    db.patch_epic(epic_id, &EpicPatch::new().feed_command(Some(cmd.as_str())))
        .unwrap();
    match Runner::new(&db).cycle(epic_id) {
        FeedCycleOutcome::Synced {
            count, degraded, ..
        } => {
            assert_eq!(count, 1);
            assert_eq!(
                degraded.as_deref(),
                Some("command wrote to stderr: half of it failed")
            );
        }
        other => panic!("{other:?}"),
    }
    assert_eq!(external_ids(&db, epic_id), ["log-1", "log-2"]);
}

#[test]
fn an_empty_emission_with_a_complaint_fails_the_cycle() {
    let db = Board::new();
    let epic_id = flat_feed_epic(&db, TWO_RECORDS, false);
    Runner::new(&db).cycle(epic_id);
    let asked = db.log.borrow().len();
    db.patch_epic(
        epic_id,
        &EpicPatch::new().feed_command(Some("echo '[]'; echo 'rate limited' >&2")),
    )
    .unwrap();
    assert_eq!(
        failure(Runner::new(&db).cycle(epic_id)),
        "command emitted no items and wrote to stderr: rate limited"
    );
    assert_eq!(db.log.borrow().len(), asked, "the store is left alone");
    assert_eq!(external_ids(&db, epic_id), ["log-1", "log-2"]);
}

#[test]
fn a_cycle_for_an_epic_that_another_has_is_busy() {
    let db = Board::new();
    let epic_id = flat_feed_epic(&db, TWO_RECORDS, false);
    let mut runner = Runner::new(&db);
    runner.taken.push(epic_id);
    assert!(matches!(runner.cycle(epic_id), FeedCycleOutcome::Busy));
    assert!(runner.ran.is_empty());
}

#[test]
fn what_a_cycle_removes_is_torn_down() {
    let db = Board::new();
    let epic_id = flat_feed_epic(&db, TWO_RECORDS, false);
    Runner::new(&db).cycle(epic_id);
    let gone = db
        .list_tasks_for_epic(epic_id)
        .unwrap()
        .into_iter()
        .find(|t| t.external_id.as_deref() == Some("log-1"))
        .unwrap();
    db.patch_task(
        gone.id,
        &TaskPatch::new().worktree(Some("/r/.worktrees/1-warn-a")),
    )
    .unwrap();
    let cmd = format!("echo '{ONE_RECORD}'");
    db.patch_epic(epic_id, &EpicPatch::new().feed_command(Some(cmd.as_str())))
        .unwrap();
    let mut runner = Runner::new(&db);
    runner.cycle(epic_id);
    assert_eq!(runner.torn_down, vec![gone.id]);
}

#[test]
fn every_way_for_a_command_to_fail_is_named() {
    let exited = FeedOutput::Exited {
        code: Some(2),
        stdout: b"[]".to_vec(),
        stderr: "no token".to_string(),
    };
    assert_eq!(
        exec_feed_command(&exited).unwrap_err(),
        "command exited non-zero: no token"
    );
    let killed = FeedOutput::Exited {
        code: None,
        stdout: vec![],
        stderr: String::new(),
    };
    assert_eq!(
        exec_feed_command(&killed).unwrap_err(),
        "command exited non-zero: "
    );
    assert_eq!(
        exec_feed_command(&FeedOutput::NotRun("no shell".to_string())).unwrap_err(),
        "failed to spawn command: no shell"
    );
    assert_eq!(
        exec_feed_command(&FeedOutput::TimedOut).unwrap_err(),
        "command timed out"
    );
}

#[test]
fn blank_stderr_is_no_complaint() {
    assert_eq!(degraded_empty_emission(0, " \n"), None);
    assert_eq!(degraded_partial_emission(3, " \n"), None);
    assert_eq!(degraded_empty_emission(1, "x"), None);
    assert_eq!(degraded_partial_emission(0, "x"), None);
}

#[test]
fn mod_tick_background_task_upserts_tasks() {
    let db = Board::new();
    let epic = db.create_epic("BG Epic", "", None).unwrap();
    db.patch_epic(
        epic.id,
        &EpicPatch::new().feed_command(Some(
            r#"echo '[{"external_id":"bg1","title":"BG","description":"","status":"backlog","tag":"bug"}]'"#,
        )),
    )
    .unwrap();

    let mut runner = Runner::new(&db);
    runner.tick();
    assert!(!runner.events.is_empty(), "nothing was synced");

    let tasks = db.list_tasks_for_epic(epic.id).unwrap();
    assert_eq!(tasks.len(), 1);
    assert_eq!(tasks[0].title, "BG");
}

#[test]
fn tick_done_epic_moves_to_backlog_when_new_feed_tasks_added() {
    let db = Board::new();
    let epic = db.create_epic("Done Epic", "", None).unwrap();

    db.patch_epic(
        epic.id,
        &EpicPatch::new()
            .status(TaskStatus::Done)
            .feed_command(Some(
                r#"echo '[{"external_id":"new1","title":"New Task","description":"","status":"backlog","tag":"bug"}]'"#,
            )),
    )
    .unwrap();

    let mut runner = Runner::new(&db);
    runner.tick();
    assert!(!runner.events.is_empty(), "nothing was synced");

    let refreshed = db.get_epic(epic.id).unwrap().unwrap();
    assert_eq!(
        refreshed.status,
        TaskStatus::Backlog,
        "done epic with new backlog feed task should regress to backlog"
    );
}

#[test]
fn mod_tick_valid_json_upserts_tasks() {
    let db = Board::new();
    let epic = db.create_epic("My Epic", "", None).unwrap();
    db.patch_epic(
        epic.id,
        &EpicPatch::new().feed_command(Some(
            r#"echo '[{"external_id":"1","title":"T","description":"D","status":"backlog","tag":"bug"}]'"#,
        )),
    )
    .unwrap();

    let mut runner = Runner::new(&db);
    runner.tick();
    assert!(!runner.events.is_empty(), "nothing was synced");

    let tasks = db.list_tasks_for_epic(epic.id).unwrap();
    assert_eq!(tasks.len(), 1);
    assert_eq!(tasks[0].title, "T");
    assert_eq!(tasks[0].external_id.as_deref(), Some("1"));
}

#[test]
fn the_tag_of_an_item_reaches_the_board() {
    let db = Board::new();
    let epic = db.create_epic("Tagged Epic", "", None).unwrap();
    db.patch_epic(
        epic.id,
        &EpicPatch::new().feed_command(Some(
            r#"echo '[{"external_id":"1","title":"T","description":"","url":"https://github.com/o/r/pull/1","status":"backlog","tag":"pr-review"}]'"#,
        )),
    )
    .unwrap();
    Runner::new(&db).tick();
    let tasks = db.list_tasks_for_epic(epic.id).unwrap();
    assert_eq!(tasks.len(), 1);
    assert_eq!(tasks[0].tag, Some(TaskTag::PrReview));
}

#[test]
fn mod_tick_missing_tag_rejects_item() {
    let db = Board::new();
    let epic = db.create_epic("Untagged Epic", "", None).unwrap();
    db.patch_epic(
        epic.id,
        &EpicPatch::new().feed_command(Some(
            r#"echo '[{"external_id":"1","title":"T","description":"","status":"backlog"}]'"#,
        )),
    )
    .unwrap();

    let mut runner = Runner::new(&db);
    runner.tick();

    
    assert!(
        runner.events.is_empty(),
        "expected no notification when tag is missing"
    );

    let tasks = db.list_tasks_for_epic(epic.id).unwrap();
    assert!(tasks.is_empty(), "no task should be inserted on parse fail");
}

#[test]
fn mod_tick_nonzero_exit_no_panic() {
    let db = Board::new();
    let epic = db.create_epic("Err Epic", "", None).unwrap();
    db.patch_epic(epic.id, &EpicPatch::new().feed_command(Some("exit 1")))
        .unwrap();

    let mut runner = Runner::new(&db);
    runner.tick(); // must not panic

    
    assert!(runner.events.is_empty(), "expected timeout but got a notification");

    let tasks = db.list_tasks_for_epic(epic.id).unwrap();
    assert!(tasks.is_empty());
}

#[test]
fn mod_tick_malformed_json_no_panic() {
    let db = Board::new();
    let epic = db.create_epic("Bad JSON Epic", "", None).unwrap();
    db.patch_epic(
        epic.id,
        &EpicPatch::new().feed_command(Some("echo 'not-json'")),
    )
    .unwrap();

    let mut runner = Runner::new(&db);
    runner.tick(); // must not panic

    
    assert!(runner.events.is_empty(), "expected timeout but got a notification");

    let tasks = db.list_tasks_for_epic(epic.id).unwrap();
    assert!(tasks.is_empty());
}

#[test]
fn mod_tick_null_feed_command_skipped() {
    let db = Board::new();
    let epic = db.create_epic("Plain Epic", "", None).unwrap();

    let mut runner = Runner::new(&db);
    runner.tick();

    
    assert!(
        runner.events.is_empty(),
        "expected empty channel but got notification"
    );

    let tasks = db.list_tasks_for_epic(epic.id).unwrap();
    assert!(tasks.is_empty());
}

#[test]
fn mod_tick_grouped_creates_sub_epics_per_repo() {
    let db = Board::new();
    let epic = db.create_epic("Dependabot", "", None).unwrap();
    db.patch_epic(
        epic.id,
        &EpicPatch::new()
            .feed_command(Some(
                r#"echo '[
                    {"external_id":"1","title":"A","description":"","url":"https://github.com/org/repo-a/pull/1","status":"backlog","tag":"pr-review"},
                    {"external_id":"2","title":"B","description":"","url":"https://github.com/org/repo-b/pull/1","status":"backlog","tag":"pr-review"}
                ]'"#,
            ))
            .group_by_repo(true),
    )
    .unwrap();

    let mut runner = Runner::new(&db);
    runner.tick();
    assert!(!runner.events.is_empty(), "nothing was synced");

    let sub_epics = db.list_sub_epics(epic.id).unwrap();
    assert_eq!(sub_epics.len(), 2);
    let names: Vec<&str> = sub_epics.iter().map(|e| e.title.as_str()).collect();
    assert!(
        names.contains(&"repo-a"),
        "expected repo-a sub-epic, got {names:?}"
    );
    assert!(
        names.contains(&"repo-b"),
        "expected repo-b sub-epic, got {names:?}"
    );

    for sub in &sub_epics {
        let tasks = db.list_tasks_for_epic(sub.id).unwrap();
        assert_eq!(tasks.len(), 1, "sub-epic {} should have 1 task", sub.title);
    }

    let parent_tasks = db.list_tasks_for_epic(epic.id).unwrap();
    assert_eq!(parent_tasks.len(), 0, "parent should have no direct tasks");
}

#[test]
fn tick_done_epic_grouped_moves_to_backlog_when_new_feed_tasks_added() {
    let db = Board::new();
    let epic = db.create_epic("Done Grouped Epic", "", None).unwrap();

    db.patch_epic(
        epic.id,
        &EpicPatch::new()
            .status(TaskStatus::Done)
            .feed_command(Some(
                r#"echo '[{"external_id":"g1","title":"G Task","description":"","url":"https://github.com/org/repo-a/pull/1","status":"backlog","tag":"pr-review"}]'"#,
            ))
            .group_by_repo(true),
    )
    .unwrap();

    let mut runner = Runner::new(&db);
    runner.tick();
    assert!(!runner.events.is_empty(), "nothing was synced");

    let refreshed = db.get_epic(epic.id).unwrap().unwrap();
    assert_eq!(
        refreshed.status,
        TaskStatus::Backlog,
        "done parent epic with new grouped feed task should regress to backlog"
    );
}

#[test]
fn mod_tick_grouped_migrates_existing_flat_tasks() {
    let db = Board::new();
    let epic = db.create_epic("Dependabot", "", None).unwrap();
    db.patch_epic(
        epic.id,
        &EpicPatch::new().feed_command(Some(
            r#"echo '[{"external_id":"1","title":"A","description":"","url":"https://github.com/org/repo-a/pull/1","status":"backlog","tag":"pr-review"}]'"#,
        )),
    )
    .unwrap();
    let mut runner = Runner::new(&db);
    runner.tick();
    assert!(!runner.events.is_empty(), "nothing was synced");

    let flat_tasks = db.list_tasks_for_epic(epic.id).unwrap();
    assert_eq!(
        flat_tasks.len(),
        1,
        "flat task should exist before migration"
    );

    db.patch_epic(epic.id, &EpicPatch::new().group_by_repo(true))
        .unwrap();
    let mut runner2 = Runner::new(&db);
    runner2.tick();
    assert!(!runner2.events.is_empty(), "nothing was synced");

    let parent_tasks = db.list_tasks_for_epic(epic.id).unwrap();
    assert_eq!(parent_tasks.len(), 0, "flat task should have migrated");

    let sub_epics = db.list_sub_epics(epic.id).unwrap();
    assert_eq!(sub_epics.len(), 1);
    assert_eq!(sub_epics[0].title, "repo-a");
    let sub_tasks = db.list_tasks_for_epic(sub_epics[0].id).unwrap();
    assert_eq!(sub_tasks.len(), 1);
}

#[test]
fn mod_tick_grouped_uses_other_for_no_url() {
    let db = Board::new();
    let epic = db.create_epic("Feed", "", None).unwrap();
    db.patch_epic(
        epic.id,
        &EpicPatch::new()
            .feed_command(Some(
                r#"echo '[{"external_id":"1","title":"X","description":"","status":"backlog","tag":"bug"}]'"#,
            ))
            .group_by_repo(true),
    )
    .unwrap();

    let mut runner = Runner::new(&db);
    runner.tick();
    assert!(!runner.events.is_empty(), "nothing was synced");

    let sub_epics = db.list_sub_epics(epic.id).unwrap();
    assert_eq!(sub_epics.len(), 1);
    assert_eq!(sub_epics[0].title, "other");
}

#[test]
fn tick_grouped_creates_fresh_sub_epic_when_existing_one_is_archived() {
    let db = Board::new();
    let feed_cmd = r#"echo '[{"external_id":"1","title":"A","description":"","url":"https://github.com/org/repo-a/pull/1","status":"backlog","tag":"pr-review"}]'"#;

    let epic = db.create_epic("Reviews", "", None).unwrap();
    db.patch_epic(
        epic.id,
        &EpicPatch::new()
            .feed_command(Some(feed_cmd))
            .group_by_repo(true),
    )
    .unwrap();

    let mut runner = Runner::new(&db);
    runner.tick();
    assert!(!runner.events.is_empty(), "nothing was synced");

    let sub_epics = db.list_sub_epics(epic.id).unwrap();
    assert_eq!(sub_epics.len(), 1);
    let archived_id = sub_epics[0].id;

    db.patch_epic(
        archived_id,
        &EpicPatch::new().status(TaskStatus::Archived),
    )
    .unwrap();

    let mut runner2 = Runner::new(&db);
    runner2.tick();
    assert!(!runner2.events.is_empty(), "nothing was synced");

    let all_sub_epics = db.list_sub_epics(epic.id).unwrap();
    let active: Vec<_> = all_sub_epics
        .iter()
        .filter(|e| e.status != TaskStatus::Archived)
        .collect();
    assert_eq!(
        active.len(),
        1,
        "expected a fresh active sub-epic after archiving; got sub-epics: {:?}",
        all_sub_epics
            .iter()
            .map(|e| (&e.title, &e.status))
            .collect::<Vec<_>>()
    );
    assert_eq!(active[0].title, "repo-a");
    assert_ne!(
        active[0].id, archived_id,
        "must be a new sub-epic, not the archived one"
    );
    let tasks = db.list_tasks_for_epic(active[0].id).unwrap();
    assert_eq!(tasks.len(), 1, "new sub-epic should have the feed task");
}

#[test]
fn tick_routes_reviews_parent_into_role_sub_epics() {
    let db = Board::new();
    let parent = db.create_epic("Reviews", "", None).unwrap();
    db.patch_epic(
        parent.id,
        &EpicPatch::new()
            .feed_role(FeedRole::ReviewsParent)
            .feed_command(Some(
                r#"echo '[
                    {"external_id":"pr-1","title":"Direct","description":"","url":"https://github.com/org/repo/pull/1","status":"backlog","tag":"pr-review","signals":["direct-request"]},
                    {"external_id":"pr-2","title":"Team","description":"","url":"https://github.com/org/repo/pull/2","status":"backlog","tag":"pr-review","signals":["team-request"]}
                ]'"#,
            )),
    )
    .unwrap();

    let mut runner = Runner::new(&db);
    runner.tick();

    let subs = db.list_sub_epics(parent.id).unwrap();
    let my = role_sub(&subs, FeedRole::MyReviews);
    let team = role_sub(&subs, FeedRole::TeamReviews);
    let bots = role_sub(&subs, FeedRole::Bots);

    let my_tasks = db.list_tasks_for_epic(my.id).unwrap();
    assert_eq!(my_tasks.len(), 1, "direct-request PR routes to My Reviews");
    assert_eq!(my_tasks[0].external_id.as_deref(), Some("pr-1"));

    let team_tasks = db.list_tasks_for_epic(team.id).unwrap();
    assert_eq!(
        team_tasks.len(),
        1,
        "team-request PR routes to Team Reviews"
    );
    assert_eq!(team_tasks[0].external_id.as_deref(), Some("pr-2"));

    assert!(db.list_tasks_for_epic(bots.id).unwrap().is_empty());
    assert!(
        db.list_tasks_for_epic(parent.id).unwrap().is_empty(),
        "parent holds no direct feed tasks"
    );
}

#[test]
fn tick_two_ticks_lose_nothing() {
    let db = Board::new();
    let parent = db.create_epic("Reviews", "", None).unwrap();
    db.patch_epic(
        parent.id,
        &EpicPatch::new()
            .feed_role(FeedRole::ReviewsParent)
            .feed_interval_secs(Some(0))
            .feed_command(Some(
                r#"echo '[{"external_id":"pr-1","title":"Team","description":"","url":"https://github.com/org/repo/pull/1","status":"backlog","tag":"pr-review","signals":["team-request"]}]'"#,
            )),
    )
    .unwrap();

    let mut runner = Runner::new(&db);
    runner.tick();
    runner.tick();

    let subs = db.list_sub_epics(parent.id).unwrap();
    let team = role_sub(&subs, FeedRole::TeamReviews);
    let team_tasks = db.list_tasks_for_epic(team.id).unwrap();
    assert_eq!(
        team_tasks.len(),
        1,
        "the PR must survive two reconciles, exactly once"
    );
    assert_eq!(team_tasks[0].external_id.as_deref(), Some("pr-1"));

    let total_feed: usize = {
        let mut n = 0;
        for s in &subs {
            n += db
                .list_tasks_for_epic(s.id)
                .unwrap()
                .iter()
                .filter(|t| t.external_id.is_some())
                .count();
        }
        n
    };
    assert_eq!(total_feed, 1, "exactly one feed task across the subtree");
}

#[test]
fn mod_tick_github_url_resolves_to_known_repo_path() {
    let db = Board::new();
    db.save_repo_path("/home/user/code/myrepo").unwrap();
    let epic = db.create_epic("Feed Epic", "", None).unwrap();
    let cmd = r#"echo '[{"external_id":"1","title":"T","description":"","url":"https://github.com/org/myrepo/pull/42","status":"backlog","tag":"bug"}]'"#;
    db.patch_epic(epic.id, &EpicPatch::new().feed_command(Some(cmd)))
        .unwrap();

    let mut runner = Runner::new(&db);
    runner.tick();
    assert!(!runner.events.is_empty(), "nothing was synced");

    let tasks = db.list_tasks_for_epic(epic.id).unwrap();
    assert_eq!(tasks.len(), 1);
    assert_eq!(
        tasks[0].repo_path, "/home/user/code/myrepo",
        "repo_path should be resolved from GitHub URL"
    );
}

#[test]
fn mod_tick_no_matching_repo_stores_empty_sentinel() {
    let db = Board::new();
    db.save_repo_path("/home/user/code/other-repo")
        .unwrap();
    let epic = db.create_epic("Feed Epic", "", None).unwrap();
    let cmd = r#"echo '[{"external_id":"1","title":"T","description":"","url":"https://github.com/org/myrepo/pull/42","status":"backlog","tag":"bug"}]'"#;
    db.patch_epic(epic.id, &EpicPatch::new().feed_command(Some(cmd)))
        .unwrap();

    let mut runner = Runner::new(&db);
    runner.tick();
    assert!(!runner.events.is_empty(), "nothing was synced");

    let tasks = db.list_tasks_for_epic(epic.id).unwrap();
    assert_eq!(tasks.len(), 1);
    assert_eq!(
        tasks[0].repo_path, "",
        "unresolved URL should store empty sentinel"
    );
}

#[test]
fn mod_tick_empty_url_stores_empty_sentinel() {
    let db = Board::new();
    db.save_repo_path("/home/user/code/myrepo").unwrap();
    let epic = db.create_epic("Feed Epic", "", None).unwrap();
    let cmd = r#"echo '[{"external_id":"1","title":"T","description":"","status":"backlog","tag":"bug"}]'"#;
    db.patch_epic(epic.id, &EpicPatch::new().feed_command(Some(cmd)))
        .unwrap();

    let mut runner = Runner::new(&db);
    runner.tick();
    assert!(!runner.events.is_empty(), "nothing was synced");

    let tasks = db.list_tasks_for_epic(epic.id).unwrap();
    assert_eq!(tasks.len(), 1);
    assert_eq!(
        tasks[0].repo_path, "",
        "empty url should store empty sentinel"
    );
}

#[test]
fn mod_tick_resolves_default_branch_per_unique_repo() {
    let db = Board::new();
    db.save_repo_path("/home/user/code/repo-a").unwrap();
    db.save_repo_path("/home/user/code/repo-b").unwrap();
    let epic = db.create_epic("Feed Epic", "", None).unwrap();
    let cmd = r#"echo '[
        {"external_id":"1","title":"A1","description":"","url":"https://github.com/org/repo-a/pull/1","status":"backlog","tag":"bug"},
        {"external_id":"2","title":"A2","description":"","url":"https://github.com/org/repo-a/pull/2","status":"backlog","tag":"bug"},
        {"external_id":"3","title":"B1","description":"","url":"https://github.com/org/repo-b/pull/1","status":"backlog","tag":"bug"}
    ]'"#;
    db.patch_epic(epic.id, &EpicPatch::new().feed_command(Some(cmd)))
        .unwrap();

    let mut runner = Runner::new(&db);
    runner.branches = vec![
        ("/home/user/code/repo-a", "master"),
        ("/home/user/code/repo-b", "develop"),
    ];
    runner.tick();
    assert!(!runner.events.is_empty(), "nothing was synced");

    let tasks = db.list_tasks_for_epic(epic.id).unwrap();
    assert_eq!(tasks.len(), 3);

    let by_ext = |ext: &str| {
        tasks
            .iter()
            .find(|t| t.external_id.as_deref() == Some(ext))
            .unwrap()
    };
    assert_eq!(by_ext("1").base_branch, "master");
    assert_eq!(by_ext("2").base_branch, "master");
    assert_eq!(by_ext("3").base_branch, "develop");

    assert_eq!(
        runner.calls_for("/home/user/code/repo-a"),
        1,
        "repo-a default branch should be resolved once, not per-item"
    );
    assert_eq!(runner.calls_for("/home/user/code/repo-b"), 1);
}

#[test]
fn mod_tick_falls_back_to_main_when_origin_head_missing() {
    let db = Board::new();
    db.save_repo_path("/home/user/code/repo-a").unwrap();
    let epic = db.create_epic("Feed Epic", "", None).unwrap();
    let cmd = r#"echo '[{"external_id":"1","title":"T","description":"","url":"https://github.com/org/repo-a/pull/1","status":"backlog","tag":"bug"}]'"#;
    db.patch_epic(epic.id, &EpicPatch::new().feed_command(Some(cmd)))
        .unwrap();

    let mut runner = Runner::new(&db);
    runner.tick();
    assert!(!runner.events.is_empty(), "nothing was synced");

    let tasks = db.list_tasks_for_epic(epic.id).unwrap();
    assert_eq!(tasks.len(), 1);
    assert_eq!(tasks[0].base_branch, "main");
}

#[test]
fn mod_tick_twice_is_idempotent() {
    let db = Board::new();
    let epic = db.create_epic("Idem Epic", "", None).unwrap();
    db.patch_epic(
        epic.id,
        &EpicPatch::new()
            .feed_command(Some(
                r#"echo '[{"external_id":"1","title":"T","description":"","status":"backlog","tag":"bug"}]'"#,
            ))
            .feed_interval_secs(Some(0)),
    )
    .unwrap();

    let mut runner = Runner::new(&db);

    runner.tick();
    assert!(!runner.events.is_empty(), "nothing was synced");

    let first = db.list_tasks_for_epic(epic.id).unwrap();
    assert_eq!(first.len(), 1);
    let first_id = first[0].id;

    runner.tick();
    assert!(!runner.events.is_empty(), "nothing was synced");

    let second = db.list_tasks_for_epic(epic.id).unwrap();
    assert_eq!(
        second.len(),
        1,
        "running the same feed twice must not duplicate tasks"
    );
    assert_eq!(
        second[0].id, first_id,
        "task id must be stable across upserts"
    );
    assert_eq!(second[0].external_id.as_deref(), Some("1"));
}

#[test]
fn mod_tick_empty_array_creates_no_tasks() {
    let db = Board::new();
    let epic = db.create_epic("Empty Epic", "", None).unwrap();
    db.patch_epic(epic.id, &EpicPatch::new().feed_command(Some("echo '[]'")))
        .unwrap();

    let mut runner = Runner::new(&db);
    runner.tick();

    

    let tasks = db.list_tasks_for_epic(epic.id).unwrap();
    assert!(tasks.is_empty(), "empty feed array must not create tasks");
}

#[test]
fn tick_sets_cache_to_false_when_no_feed_commands() {
    let db = Board::new();
    db.create_epic("Plain Epic", "", None).unwrap();

    let mut runner = Runner::new(&db);
    runner.tick();

    assert_eq!(
        runner.feed.any_feed_cmds,
        Some(false),
        "cache should be Some(false) after tick with no feed commands"
    );
}

#[test]
fn tick_sets_cache_to_true_when_feed_command_exists() {
    let db = Board::new();
    let epic = db.create_epic("Feed Epic", "", None).unwrap();
    db.patch_epic(epic.id, &EpicPatch::new().feed_command(Some("echo '[]'")))
        .unwrap();

    let mut runner = Runner::new(&db);
    runner.tick();

    assert_eq!(
        runner.feed.any_feed_cmds,
        Some(true),
        "cache should be Some(true) when at least one epic has a feed command"
    );
}

#[test]
fn tick_skips_db_queries_when_cache_is_false_and_no_invalidation() {
    let db = Board::new();
    db.create_epic("Plain Epic", "", None).unwrap();

    let mut runner = Runner::new(&db);

    runner.tick();
    assert_eq!(runner.feed.any_feed_cmds, Some(false));

    let epic2 = db.create_epic("Feed Epic", "", None).unwrap();
    let cmd = r#"echo '[{"external_id":"c1","title":"C","description":"","status":"backlog","tag":"bug"}]'"#;
    db.patch_epic(epic2.id, &EpicPatch::new().feed_command(Some(cmd)))
        .unwrap();

    runner.tick();

    
    assert!(
        runner.events.is_empty(),
        "tick should skip body when cache is Some(false)"
    );
    let tasks = db.list_tasks_for_epic(epic2.id).unwrap();
    assert!(
        tasks.is_empty(),
        "no task should be created while cache prevents DB query"
    );
}

#[test]
fn tick_re_queries_after_epic_changed_invalidation() {
    let db = Board::new();
    db.create_epic("Plain Epic", "", None).unwrap();

    let mut runner = Runner::new(&db);

    runner.tick();
    assert_eq!(runner.feed.any_feed_cmds, Some(false));

    let epic2 = db.create_epic("Feed Epic", "", None).unwrap();
    let cmd = r#"echo '[{"external_id":"r1","title":"R","description":"","status":"backlog","tag":"bug"}]'"#;
    db.patch_epic(epic2.id, &EpicPatch::new().feed_command(Some(cmd)))
        .unwrap();
    runner.epic_changed = true;

    runner.tick();
    assert!(!runner.events.is_empty(), "nothing was synced");

    let tasks = db.list_tasks_for_epic(epic2.id).unwrap();
    assert_eq!(
        tasks.len(),
        1,
        "task should be created after cache invalidation"
    );
}

#[test]
fn mod_tick_non_github_url_stores_empty_sentinel() {
    let db = Board::new();
    db.save_repo_path("/home/user/code/myrepo").unwrap();
    let epic = db.create_epic("Feed Epic", "", None).unwrap();
    let cmd = r#"echo '[{"external_id":"1","title":"T","description":"","url":"https://jira.company.com/PROJ-123","status":"backlog","tag":"bug"}]'"#;
    db.patch_epic(epic.id, &EpicPatch::new().feed_command(Some(cmd)))
        .unwrap();

    let mut runner = Runner::new(&db);
    runner.tick();
    assert!(!runner.events.is_empty(), "nothing was synced");

    let tasks = db.list_tasks_for_epic(epic.id).unwrap();
    assert_eq!(tasks.len(), 1);
    assert_eq!(
        tasks[0].repo_path, "",
        "non-github url should store empty sentinel"
    );
}

//! The board as the store holds it, and what each action does to it.
//!
//! The store keeps its own rows; what stands here is what a sync relies on when it
//! asks for something and the store does it.

use vstd::prelude::*;

use crate::feed::store;
use crate::feed::store::{StoreActionView, StoreAnswer, SyncStepView};
use crate::models;
use crate::models::{Epic, EpicId, EpicOrigin, FeedRole, Task, TaskId, TaskStatus, TaskTag};

verus! {

/// What a feed says of a task, and a sync may write anew.
pub struct Words {
    pub title: Seq<char>,
    pub description: Seq<char>,
    pub tag: Option<TaskTag>,
    pub labels: Seq<Seq<char>>,
}

/// How far a task is, and where it is being worked on.
pub struct Work {
    pub status: TaskStatus,
    pub sub_status: Seq<char>,
    pub worktree: Option<Seq<char>>,
    pub window: Option<Seq<char>>,
}

/// A task on the board.
pub struct Held {
    /// The epic that holds it.
    pub epic: Option<EpicId>,
    /// The feed's name for it; a task without one was made by hand.
    pub name: Option<Seq<char>>,
    pub words: Words,
    pub order: Option<int>,
    pub work: Work,
}

/// An epic on the board. Of its status only that it is archived matters here.
pub struct Shelf {
    pub parent: Option<EpicId>,
    pub title: Seq<char>,
    pub archived: bool,
    pub role: FeedRole,
    pub sorts_by_repo: bool,
    pub origin: EpicOrigin,
}

/// The board.
pub struct Board {
    pub tasks: Map<TaskId, Held>,
    pub epics: Map<EpicId, Shelf>,
}

/// Does the epic hold the task under the name?
pub open spec fn lies(tasks: Map<TaskId, Held>, t: TaskId, epic: EpicId, name: Seq<char>) -> bool {
    tasks.contains_key(t) && tasks[t].epic == Some(epic) && tasks[t].name == Some(name)
}

impl Board {
    /// Is the epic right below the other?
    pub open spec fn is_child(self, child: EpicId, parent: EpicId) -> bool {
        self.epics.contains_key(child) && self.epics[child].parent == Some(parent)
    }

    /// Is the task in an epic that is there, or in none?
    pub open spec fn has_a_place(self, t: TaskId) -> bool {
        self.tasks[t].epic matches Some(e) ==> self.epics.contains_key(e)
    }

    /// Every epic that a task or an epic names is there, and no epic is right below
    /// itself or below one that is right below it.
    pub open spec fn sound(self) -> bool {
        &&& forall|t: TaskId| #[trigger] self.tasks.contains_key(t) ==> self.has_a_place(t)
        &&& forall|c: EpicId, p: EpicId| #[trigger]
            self.is_child(c, p) ==> self.epics.contains_key(p) && c != p && !self.is_child(p, c)
    }

    /// Does the board hold what the epic says of itself?
    pub open spec fn shows(self, epic: Epic) -> bool {
        &&& self.epics.contains_key(epic.id)
        &&& self.epics[epic.id].title == epic.title@
        &&& self.epics[epic.id].archived == (epic.status == TaskStatus::Archived)
        &&& self.epics[epic.id].role == epic.feed_role
        &&& self.epics[epic.id].sorts_by_repo == epic.group_by_repo
        &&& self.epics[epic.id].origin == epic.origin
    }

    /// Are these the epics right below an epic, each once?
    pub open spec fn lists_epics(self, parent: EpicId, epics: Seq<Epic>) -> bool {
        &&& forall|i: int|
            0 <= i < epics.len() ==> self.shows(#[trigger] epics[i]) && self.is_child(
                epics[i].id,
                parent,
            )
        &&& forall|i: int, j: int|
            0 <= i < j < epics.len() ==> (#[trigger] epics[i]).id != (#[trigger] epics[j]).id
        &&& forall|e: EpicId| #[trigger]
            self.is_child(e, parent) ==> exists|i: int|
                0 <= i < epics.len() && (#[trigger] epics[i]).id == e
    }

    /// Are these the tasks that an epic holds?
    pub open spec fn lists_tasks(self, epic: EpicId, tasks: Seq<Task>) -> bool {
        &&& forall|i: int|
            0 <= i < tasks.len() ==> {
                let task = #[trigger] tasks[i];
                &&& self.tasks.contains_key(task.id)
                &&& self.tasks[task.id].epic == Some(epic)
                &&& self.tasks[task.id].name == models::opt_text(task.external_id)
                &&& task.epic_id == Some(epic)
            }
        &&& forall|t: TaskId| #[trigger]
            self.tasks.contains_key(t) && self.tasks[t].epic == Some(epic) ==> exists|i: int|
                0 <= i < tasks.len() && (#[trigger] tasks[i]).id == t
    }

    /// The board with one more epic.
    pub open spec fn with_epic(self, id: EpicId, shelf: Shelf) -> Board {
        Board { tasks: self.tasks, epics: self.epics.insert(id, shelf) }
    }

    /// The board with another row for a task.
    pub open spec fn with_task(self, id: TaskId, row: Held) -> Board {
        Board { tasks: self.tasks.insert(id, row), epics: self.epics }
    }

    /// Is it a feed task of an epic, or of one right below it, whose name is not kept?
    pub open spec fn stale(self, root: EpicId, keep: Seq<Seq<char>>, t: TaskId) -> bool {
        match (self.tasks[t].epic, self.tasks[t].name) {
            (Some(e), Some(n)) => !keep.contains(n) && (e == root || self.is_child(e, root)),
            _ => false,
        }
    }
}

/// What names each of some epics is to hold.
pub type Plan = Map<EpicId, Seq<Seq<char>>>;

/// Is it a feed task of an epic in the plan?
pub open spec fn planned(row: Held, plan: Plan) -> bool {
    row.name is Some && row.epic is Some && plan.contains_key(row.epic->0)
}

/// Is it a feed task under one of the names that its epic is to hold?
pub open spec fn listed(row: Held, plan: Plan) -> bool {
    planned(row, plan) && plan[row.epic->0].contains(row.name->0)
}

/// Is it left alone? So is what is not in the plan; and, where nothing is removed,
/// what the plan does not list.
pub open spec fn spared(row: Held, plan: Plan, purge: bool) -> bool {
    !planned(row, plan) || (!purge && !listed(row, plan))
}

/// Is it the same task, with other words at most? Its place, its name and the work on
/// it are as they were.
pub open spec fn kept(before: Held, after: Held) -> bool {
    before.epic == after.epic && before.name == after.name && before.work == after.work
}

/// Did no task lie there under that name before?
pub open spec fn made(first: Map<TaskId, Held>, row: Held) -> bool {
    &&& row.name is Some
    &&& row.epic is Some
    &&& forall|s: TaskId| !#[trigger] lies(first, s, row.epic->0, row.name->0)
}

/// Where a task of the board comes from: it was left alone, or refreshed, or made for a
/// name that was not there.
pub open spec fn comes_from(
    first: Map<TaskId, Held>,
    plan: Plan,
    purge: bool,
    t: TaskId,
    row: Held,
) -> bool {
    ||| first.contains_key(t) && spared(first[t], plan, purge) && row == first[t]
    ||| first.contains_key(t) && listed(first[t], plan) && kept(first[t], row)
    ||| listed(row, plan) && made(first, row)
}

/// Were the epics of the plan made to hold what it says? Each name has a task in its
/// epic: the one that had it, or else a single new one. Where `purge` says so, the other
/// feed tasks of these epics are gone.
pub open spec fn synced(
    first: Map<TaskId, Held>,
    plan: Plan,
    purge: bool,
    now: Map<TaskId, Held>,
) -> bool {
    &&& forall|t: TaskId| #[trigger]
        first.contains_key(t) && spared(first[t], plan, purge) ==> now.contains_key(t) && now[t]
            == first[t]
    &&& forall|t: TaskId| #[trigger]
        first.contains_key(t) && listed(first[t], plan) ==> now.contains_key(t) && kept(
            first[t],
            now[t],
        )
    &&& forall|t: TaskId| #[trigger]
        now.contains_key(t) ==> comes_from(first, plan, purge, t, now[t])
    &&& forall|s: TaskId, t: TaskId|
        (#[trigger] now.contains_key(s)) && (#[trigger] now.contains_key(t)) && made(first, now[s])
            && now[s].epic == now[t].epic && now[s].name == now[t].name ==> s == t
    &&& forall|e: EpicId, n: Seq<char>|
        plan.contains_key(e) && #[trigger] plan[e].contains(n) ==> exists|t: TaskId| #[trigger]
            lies(now, t, e, n)
}

/// The plan for a single epic.
pub open spec fn single(epic: EpicId, names: Seq<Seq<char>>) -> Plan {
    Map::empty().insert(epic, names)
}

/// Did the store do what it was asked for, and say so?
pub open spec fn took(b: Board, action: StoreActionView, answer: StoreAnswer, after: Board) -> bool {
    match action {
        StoreActionView::ListSubEpics(parent) => {
            &&& after == b
            &&& answer matches StoreAnswer::Epics(epics)
            &&& b.lists_epics(parent, epics@)
        },
        StoreActionView::ListTasks(epic) => {
            &&& after == b
            &&& answer matches StoreAnswer::Tasks(tasks)
            &&& b.lists_tasks(epic, tasks@)
        },
        StoreActionView::CreateEpic { title, parent } => {
            &&& b.epics.contains_key(parent)
            &&& answer matches StoreAnswer::Made(id)
            &&& !b.epics.contains_key(id)
            &&& after == b.with_epic(
                id,
                Shelf {
                    parent: Some(parent),
                    title,
                    archived: false,
                    role: FeedRole::NoRole,
                    sorts_by_repo: false,
                    origin: EpicOrigin::Manual,
                },
            )
        },
        StoreActionView::SetRole { epic, role } => {
            &&& answer is Finished
            &&& b.epics.contains_key(epic)
            &&& after == b.with_epic(epic, Shelf { role, ..b.epics[epic] })
        },
        StoreActionView::CreateRepoGroup { parent, repo } => {
            &&& b.epics.contains_key(parent)
            &&& answer matches StoreAnswer::Made(id)
            &&& if b.epics.contains_key(id) {
                b.is_child(id, parent) && b.epics[id].title == repo && after == b
            } else {
                after == b.with_epic(
                    id,
                    Shelf {
                        parent: Some(parent),
                        title: repo,
                        archived: false,
                        role: FeedRole::NoRole,
                        sorts_by_repo: false,
                        origin: EpicOrigin::RepoGroup,
                    },
                )
            }
        },
        StoreActionView::MoveTask { task, epic } => {
            &&& answer is Finished
            &&& b.tasks.contains_key(task)
            &&& b.epics.contains_key(epic)
            &&& after == b.with_task(task, Held { epic: Some(epic), ..b.tasks[task] })
        },
        StoreActionView::RefreshTask { task, title, description, tag, labels } => {
            &&& answer is Finished
            &&& b.tasks.contains_key(task)
            &&& after == b.with_task(
                task,
                Held {
                    words: Words { title, description, tag: Some(tag), labels },
                    ..b.tasks[task]
                },
            )
        },
        StoreActionView::Upsert { epic, entries } => {
            &&& answer is Removed
            &&& b.epics.contains_key(epic)
            &&& after.epics == b.epics
            &&& synced(b.tasks, single(epic, store::names_of(entries)), true, after.tasks)
        },
        StoreActionView::Merge { epic, entries } => {
            &&& answer is Finished
            &&& b.epics.contains_key(epic)
            &&& after.epics == b.epics
            &&& synced(b.tasks, single(epic, store::names_of(entries)), false, after.tasks)
        },
        StoreActionView::DeleteStale { root, keep } => {
            &&& answer is Removed
            &&& after.epics == b.epics
            &&& forall|t: TaskId| #[trigger]
                after.tasks.contains_key(t) == (b.tasks.contains_key(t) && !b.stale(root, keep, t))
            &&& forall|t: TaskId| #[trigger]
                after.tasks.contains_key(t) ==> after.tasks[t] == b.tasks[t]
        },
        StoreActionView::Recalculate(_) => {
            &&& answer is Finished
            &&& after == b
        },
        StoreActionView::Flatten(epic) => {
            &&& answer is Finished
            &&& after.tasks.dom() == b.tasks.dom()
            &&& forall|t: TaskId| #[trigger]
                after.tasks.contains_key(t) ==> after.tasks[t] == (match b.tasks[t].epic {
                    Some(e) => if b.is_child(e, epic) && b.epics[e].origin
                        == EpicOrigin::RepoGroup {
                        Held { epic: Some(epic), ..b.tasks[t] }
                    } else {
                        b.tasks[t]
                    },
                    None => b.tasks[t],
                })
            &&& forall|e: EpicId| #[trigger]
                after.epics.contains_key(e) == (b.epics.contains_key(e) && !(b.is_child(e, epic)
                    && b.epics[e].origin == EpicOrigin::RepoGroup))
            &&& forall|e: EpicId| #[trigger]
                after.epics.contains_key(e) ==> after.epics[e] == b.epics[e]
        },
    }
}

/// What was asked for, what the store said, and the board before, between and after.
pub struct Run {
    pub actions: Seq<StoreActionView>,
    pub answers: Seq<StoreAnswer>,
    pub boards: Seq<Board>,
}

impl Run {
    /// Did the store do what it was asked for at this point?
    pub open spec fn goes_well(self, n: int) -> bool {
        took(self.boards[n], self.actions[n], self.answers[n], self.boards[n + 1])
    }

    /// Did the store do all that it was asked for?
    pub open spec fn is_smooth(self) -> bool {
        &&& self.actions.len() == self.answers.len()
        &&& self.boards.len() == self.answers.len() + 1
        &&& forall|n: int| 0 <= n < self.answers.len() ==> #[trigger] self.goes_well(n)
    }

    /// The board before.
    pub open spec fn start(self) -> Board {
        self.boards[0]
    }

    /// The board after.
    pub open spec fn end(self) -> Board {
        self.boards.last()
    }
}

/// Where the step asks for something, is it this?
pub open spec fn asks<V>(step: SyncStepView<V>, action: StoreActionView) -> bool {
    step matches SyncStepView::Ask(a) ==> a == action
}

/// Are the epics of the one board on the other as well, and unchanged?
pub open spec fn grown(first: Board, b: Board) -> bool {
    forall|e: EpicId| #[trigger]
        first.epics.contains_key(e) ==> b.epics.contains_key(e) && b.epics[e] == first.epics[e]
}

/// A sound board stays so with a new epic below one that is there, and with an epic
/// written anew that stays where it is.
pub proof fn lemma_sound_with_epic(b: Board, id: EpicId, shelf: Shelf, parent: EpicId)
    requires
        b.sound(),
        shelf.parent == Some(parent),
        b.epics.contains_key(parent),
        !b.epics.contains_key(id) || b.epics[id].parent == Some(parent),
    ensures
        b.with_epic(id, shelf).sound(),
{
    let after = b.with_epic(id, shelf);
    assert forall|t: TaskId| #[trigger] after.tasks.contains_key(t) implies after.has_a_place(t) by {
        assert(b.tasks.contains_key(t));
        assert(b.has_a_place(t));
    }
    assert forall|c: EpicId, p: EpicId| #[trigger] after.is_child(c, p) implies after.epics.contains_key(
        p,
    ) && c != p && !after.is_child(p, c) by {
        if c != id || b.epics.contains_key(id) {
            assert(b.is_child(c, p));
        }
        if after.is_child(p, c) && (p != id || b.epics.contains_key(id)) {
            assert(b.is_child(p, c));
        }
    }
}

/// A plan for no epic is met by leaving all as it is.
pub proof fn lemma_nothing_planned(tasks: Map<TaskId, Held>)
    ensures
        synced(tasks, Map::empty(), true, tasks),
{
    assert forall|s: TaskId, t: TaskId|
        (#[trigger] tasks.contains_key(s)) && (#[trigger] tasks.contains_key(t)) && made(
            tasks,
            tasks[s],
        ) && tasks[s].epic == tasks[t].epic && tasks[s].name == tasks[t].name implies s == t by {
        assert(lies(tasks, s, tasks[s].epic->0, tasks[s].name->0));
    }
}

/// One more epic of a plan does not undo what was done for the others.
pub proof fn lemma_one_more_epic(
    first: Map<TaskId, Held>,
    plan: Plan,
    mid: Map<TaskId, Held>,
    epic: EpicId,
    names: Seq<Seq<char>>,
    now: Map<TaskId, Held>,
)
    requires
        synced(first, plan, true, mid),
        synced(mid, single(epic, names), true, now),
        !plan.contains_key(epic),
    ensures
        synced(first, plan.insert(epic, names), true, now),
{
    let more = single(epic, names);
    let all = plan.insert(epic, names);
    assert forall|t: TaskId| #[trigger]
        first.contains_key(t) && spared(first[t], all, true) implies now.contains_key(t) && now[t]
        == first[t] by {
        assert(spared(first[t], plan, true));
        assert(mid.contains_key(t));
        assert(spared(mid[t], more, true));
    }
    assert forall|t: TaskId| #[trigger] first.contains_key(t) && listed(first[t], all) implies now.contains_key(
        t,
    ) && kept(first[t], now[t]) by {
        if first[t].epic->0 == epic {
            assert(spared(first[t], plan, true));
            assert(listed(mid[t], more));
        } else {
            assert(listed(first[t], plan));
            assert(mid.contains_key(t));
            assert(spared(mid[t], more, true));
        }
    }
    assert forall|t: TaskId| #[trigger] now.contains_key(t) implies comes_from(
        first,
        all,
        true,
        t,
        now[t],
    ) by {
        assert(comes_from(mid, more, true, t, now[t]));
        if mid.contains_key(t) && (spared(mid[t], more, true) && now[t] == mid[t] || listed(
            mid[t],
            more,
        ) && kept(mid[t], now[t])) {
            assert(comes_from(first, plan, true, t, mid[t]));
        } else {
            assert forall|s: TaskId| !#[trigger] lies(first, s, epic, now[t].name->0) by {
                if lies(first, s, epic, now[t].name->0) {
                    assert(spared(first[s], plan, true));
                    assert(lies(mid, s, epic, now[t].name->0));
                }
            }
        }
    }
    assert forall|s: TaskId, t: TaskId|
        (#[trigger] now.contains_key(s)) && (#[trigger] now.contains_key(t)) && made(first, now[s])
            && now[s].epic == now[t].epic && now[s].name == now[t].name implies s == t by {
        assert(comes_from(mid, more, true, s, now[s]));
        assert(comes_from(mid, more, true, t, now[t]));
        if now[s].epic == Some(epic) {
            assert forall|r: TaskId| !#[trigger] lies(mid, r, epic, now[s].name->0) by {
                if lies(mid, r, epic, now[s].name->0) {
                    assert(comes_from(first, plan, true, r, mid[r]));
                    assert(lies(first, r, epic, now[s].name->0));
                }
            }
        } else {
            assert(mid.contains_key(s) && mid.contains_key(t));
        }
    }
    assert forall|e: EpicId, n: Seq<char>| all.contains_key(e) && #[trigger] all[e].contains(n) implies exists|
        t: TaskId,
    | #[trigger] lies(now, t, e, n) by {
        if e == epic {
            assert(more[e].contains(n));
        } else {
            assert(plan[e].contains(n));
            let t = choose|t: TaskId| #[trigger] lies(mid, t, e, n);
            assert(spared(mid[t], more, true));
            assert(lies(now, t, e, n));
        }
    }
}

/// Is every task of the one board on the other, under its name and with the work on it?
pub open spec fn keeps_every_task(first: Board, b: Board) -> bool {
    forall|t: TaskId| #[trigger]
        first.tasks.contains_key(t) ==> b.tasks.contains_key(t) && b.tasks[t].name
            == first.tasks[t].name && b.tasks[t].work == first.tasks[t].work
}

/// An action that may remove no task leaves every task on the board.
pub proof fn lemma_one_step_keeps(
    b: Board,
    action: StoreActionView,
    answer: StoreAnswer,
    after: Board,
)
    requires
        took(b, action, answer, after),
        !action.removes(),
    ensures
        keeps_every_task(b, after),
{
    assert forall|t: TaskId| #[trigger] b.tasks.contains_key(t) implies after.tasks.contains_key(t)
        && after.tasks[t].name == b.tasks[t].name && after.tasks[t].work == b.tasks[t].work by {
        match action {
            StoreActionView::Merge { epic, entries } => {
                let plan = single(epic, store::names_of(entries));
                assert(spared(b.tasks[t], plan, false) || listed(b.tasks[t], plan));
            },
            StoreActionView::Flatten(_) => {
                assert(after.tasks.dom().contains(t));
            },
            _ => {},
        }
    }
}

/// A run of actions that may remove no task leaves every task on the board.
pub proof fn lemma_run_keeps(run: Run, n: int)
    requires
        run.is_smooth(),
        0 <= n <= run.answers.len(),
        forall|i: int| 0 <= i < n ==> !(#[trigger] run.actions[i]).removes(),
    ensures
        keeps_every_task(run.start(), run.boards[n]),
    decreases n,
{
    if n > 0 {
        lemma_run_keeps(run, n - 1);
        assert(run.goes_well(n - 1));
        assert(!run.actions[n - 1].removes());
        lemma_one_step_keeps(
            run.boards[n - 1],
            run.actions[n - 1],
            run.answers[n - 1],
            run.boards[n],
        );
        assert forall|t: TaskId| #[trigger] run.start().tasks.contains_key(
            t,
        ) implies run.boards[n].tasks.contains_key(t) && run.boards[n].tasks[t].name
            == run.start().tasks[t].name && run.boards[n].tasks[t].work
            == run.start().tasks[t].work by {
            assert(run.boards[n - 1].tasks.contains_key(t));
        }
    }
}

/// To move a task and to write it anew leaves its name, its order and the work on it
/// alone, and every other task.
pub proof fn moving_leaves_the_work_alone(
    b: Board,
    moving: StoreActionView,
    moved: StoreAnswer,
    mid: Board,
    refreshing: StoreActionView,
    done: StoreAnswer,
    after: Board,
)
    requires
        took(b, moving, moved, mid),
        took(mid, refreshing, done, after),
        moving is MoveTask,
        refreshing is RefreshTask,
        moving->MoveTask_task == refreshing->RefreshTask_task,
    ensures
        after.tasks.dom() == b.tasks.dom(),
        after.epics == b.epics,
        ({
            let t = moving->MoveTask_task;
            &&& after.tasks[t].epic == Some(moving->MoveTask_epic)
            &&& after.tasks[t].name == b.tasks[t].name
            &&& after.tasks[t].order == b.tasks[t].order
            &&& after.tasks[t].work == b.tasks[t].work
        }),
        forall|s: TaskId|
            s != moving->MoveTask_task && #[trigger] b.tasks.contains_key(s) ==> after.tasks[s]
                == b.tasks[s],
{
    assert(after.tasks.dom() =~= b.tasks.dom());
}

} // verus!

//! What a feed sync asks of the store, and what the store may say.

use vstd::prelude::*;

use crate::feed::entries;
use crate::feed::entries::{EntryView, FeedItemWithTarget};
use crate::models;
use crate::models::{Epic, EpicId, FeedRole, Task, TaskId, TaskTag};
use crate::text;

verus! {

/// A feed task that is gone from the board and may have left a worktree or a
/// window behind.
#[derive(Clone, Debug, PartialEq, Eq)]
pub struct RemovedFeedTask {
    pub id: TaskId,
    pub repo_path: String,
    pub worktree: Option<String>,
    pub tmux_window: Option<String>,
}

/// [`RemovedFeedTask`] as values.
pub struct RemovedView {
    pub id: TaskId,
    pub repo_path: Seq<char>,
    pub worktree: Option<Seq<char>>,
    pub tmux_window: Option<Seq<char>>,
}

impl View for RemovedFeedTask {
    type V = RemovedView;

    open spec fn view(&self) -> RemovedView {
        RemovedView {
            id: self.id,
            repo_path: self.repo_path@,
            worktree: models::opt_text(self.worktree),
            tmux_window: models::opt_text(self.tmux_window),
        }
    }
}

/// The removed tasks as values.
pub open spec fn removed_views(removed: Seq<RemovedFeedTask>) -> Seq<RemovedView> {
    removed.map_values(|r: RemovedFeedTask| r@)
}

fn copied_text(s: &Option<String>) -> (r: Option<String>)
    ensures
        models::opt_text(r) == models::opt_text(*s),
{
    match s {
        Some(s) => Some(s.clone()),
        None => None,
    }
}

impl RemovedFeedTask {
    /// The same task once more.
    pub fn copied(&self) -> (r: RemovedFeedTask)
        ensures
            r@ == self@,
    {
        RemovedFeedTask {
            id: self.id,
            repo_path: self.repo_path.clone(),
            worktree: copied_text(&self.worktree),
            tmux_window: copied_text(&self.tmux_window),
        }
    }
}

/// Something to be done in the store.
#[derive(Clone, Debug)]
pub enum StoreAction {
    /// List the epics right below an epic.
    ListSubEpics(EpicId),
    /// List the tasks that an epic holds itself.
    ListTasks(EpicId),
    /// Make an epic below another.
    CreateEpic { title: String, parent: EpicId },
    /// Give an epic its part in the reviews subtree.
    SetRole { epic: EpicId, role: FeedRole },
    /// Find the group of a repository below an epic, or make it.
    CreateRepoGroup { parent: EpicId, repo: String },
    /// Put a task into another epic, and leave all else about it alone.
    MoveTask { task: TaskId, epic: EpicId },
    /// Give a task this title, description, tag and labels, and leave all else about
    /// it alone, its order too.
    RefreshTask {
        task: TaskId,
        title: String,
        description: String,
        tag: TaskTag,
        labels: Vec<String>,
    },
    /// Make an epic's feed tasks those of the entries: make or refresh each of
    /// theirs, and remove the others. One that is refreshed keeps the work on it.
    Upsert { epic: EpicId, entries: Vec<FeedItemWithTarget> },
    /// Make or refresh a feed task in an epic for each entry, and remove none.
    Merge { epic: EpicId, entries: Vec<FeedItemWithTarget> },
    /// Remove the feed tasks of an epic, and of those right below it, but for
    /// those with one of these names.
    DeleteStale { root: EpicId, keep: Vec<String> },
    /// Work out an epic's status anew from what it holds.
    Recalculate(EpicId),
    /// Move the tasks of an epic's repository groups up into it, and remove the
    /// groups that are empty then.
    Flatten(EpicId),
}

/// [`StoreAction`] as values.
#[verifier::ext_equal]
pub enum StoreActionView {
    ListSubEpics(EpicId),
    ListTasks(EpicId),
    CreateEpic { title: Seq<char>, parent: EpicId },
    SetRole { epic: EpicId, role: FeedRole },
    CreateRepoGroup { parent: EpicId, repo: Seq<char> },
    MoveTask { task: TaskId, epic: EpicId },
    RefreshTask {
        task: TaskId,
        title: Seq<char>,
        description: Seq<char>,
        tag: TaskTag,
        labels: Seq<Seq<char>>,
    },
    Upsert { epic: EpicId, entries: Seq<EntryView> },
    Merge { epic: EpicId, entries: Seq<EntryView> },
    DeleteStale { root: EpicId, keep: Seq<Seq<char>> },
    Recalculate(EpicId),
    Flatten(EpicId),
}

impl View for StoreAction {
    type V = StoreActionView;

    open spec fn view(&self) -> StoreActionView {
        match self {
            StoreAction::ListSubEpics(epic) => StoreActionView::ListSubEpics(*epic),
            StoreAction::ListTasks(epic) => StoreActionView::ListTasks(*epic),
            StoreAction::CreateEpic { title, parent } => StoreActionView::CreateEpic {
                title: title@,
                parent: *parent,
            },
            StoreAction::SetRole { epic, role } => StoreActionView::SetRole {
                epic: *epic,
                role: *role,
            },
            StoreAction::CreateRepoGroup { parent, repo } => StoreActionView::CreateRepoGroup {
                parent: *parent,
                repo: repo@,
            },
            StoreAction::MoveTask { task, epic } => StoreActionView::MoveTask {
                task: *task,
                epic: *epic,
            },
            StoreAction::RefreshTask { task, title, description, tag, labels } => {
                StoreActionView::RefreshTask {
                    task: *task,
                    title: title@,
                    description: description@,
                    tag: *tag,
                    labels: text::texts(labels@),
                }
            },
            StoreAction::Upsert { epic, entries } => StoreActionView::Upsert {
                epic: *epic,
                entries: entries::entry_views(entries@),
            },
            StoreAction::Merge { epic, entries } => StoreActionView::Merge {
                epic: *epic,
                entries: entries::entry_views(entries@),
            },
            StoreAction::DeleteStale { root, keep } => StoreActionView::DeleteStale {
                root: *root,
                keep: text::texts(keep@),
            },
            StoreAction::Recalculate(epic) => StoreActionView::Recalculate(*epic),
            StoreAction::Flatten(epic) => StoreActionView::Flatten(*epic),
        }
    }
}

/// The names of the entries' items.
pub open spec fn names_of(entries: Seq<EntryView>) -> Seq<Seq<char>> {
    entries.map_values(|e: EntryView| e.item.external_id)
}

impl StoreActionView {
    /// Does the action put a task elsewhere?
    pub open spec fn moves(self) -> bool {
        self is MoveTask
    }

    /// Does the action write items into an epic?
    pub open spec fn writes(self) -> bool {
        self is Upsert || self is Merge
    }

    /// May the action remove a task?
    pub open spec fn removes(self) -> bool {
        self is Upsert || self is DeleteStale
    }

    /// May the action remove a task that an epic holds under a name? A task
    /// without a name was made by hand, and no action removes it.
    pub open spec fn may_take(self, holder: EpicId, name: Option<Seq<char>>) -> bool {
        match (self, name) {
            (StoreActionView::Upsert { epic, entries }, Some(name)) => epic == holder && !names_of(
                entries,
            ).contains(name),
            (StoreActionView::DeleteStale { root, keep }, Some(name)) => !keep.contains(name),
            _ => false,
        }
    }
}

/// What the store says.
#[derive(Clone, Debug)]
pub enum StoreAnswer {
    /// These are the epics.
    Epics(Vec<Epic>),
    /// These are the tasks.
    Tasks(Vec<Task>),
    /// This epic is there now.
    Made(EpicId),
    /// It is done, and these tasks are gone.
    Removed(Vec<RemovedFeedTask>),
    /// It is done.
    Finished,
    /// It could not be done; and why.
    Failed(String),
}

/// The complaint about an answer that is none to the action.
pub const ODD_ANSWER: &'static str = "the store gave another answer";

impl StoreAnswer {
    /// Why the action failed; `None` where it did not.
    pub open spec fn failure(self) -> Option<Seq<char>> {
        match self {
            StoreAnswer::Failed(why) => Some(why@),
            _ => None,
        }
    }

    /// The epics that were asked for, or why there are none.
    pub open spec fn epics(self) -> Result<Seq<Epic>, Seq<char>> {
        match self {
            StoreAnswer::Epics(epics) => Ok(epics@),
            StoreAnswer::Failed(why) => Err(why@),
            _ => Err(ODD_ANSWER@),
        }
    }

    /// The tasks that were asked for, or why there are none.
    pub open spec fn tasks(self) -> Result<Seq<Task>, Seq<char>> {
        match self {
            StoreAnswer::Tasks(tasks) => Ok(tasks@),
            StoreAnswer::Failed(why) => Err(why@),
            _ => Err(ODD_ANSWER@),
        }
    }

    /// The epic that was to be made, or why there is none.
    pub open spec fn made(self) -> Result<EpicId, Seq<char>> {
        match self {
            StoreAnswer::Made(epic) => Ok(epic),
            StoreAnswer::Failed(why) => Err(why@),
            _ => Err(ODD_ANSWER@),
        }
    }

    /// The tasks that are gone.
    pub open spec fn gone(self) -> Seq<RemovedView> {
        match self {
            StoreAnswer::Removed(removed) => removed_views(removed@),
            _ => Seq::empty(),
        }
    }

    /// Why the action failed.
    pub fn why_failed(&self) -> (r: Option<String>)
        ensures
            models::opt_text(r) == self.failure(),
    {
        match self {
            StoreAnswer::Failed(why) => Some(why.clone()),
            _ => None,
        }
    }

    /// The epics that were asked for.
    pub fn read_epics(&self) -> (r: Result<&Vec<Epic>, String>)
        ensures
            match (r, self.epics()) {
                (Ok(v), Ok(epics)) => v@ == epics,
                (Err(s), Err(why)) => s@ == why,
                _ => false,
            },
    {
        match self {
            StoreAnswer::Epics(epics) => Ok(epics),
            StoreAnswer::Failed(why) => Err(why.clone()),
            _ => Err(ODD_ANSWER.to_owned()),
        }
    }

    /// The tasks that were asked for.
    pub fn read_tasks(&self) -> (r: Result<&Vec<Task>, String>)
        ensures
            match (r, self.tasks()) {
                (Ok(v), Ok(tasks)) => v@ == tasks,
                (Err(s), Err(why)) => s@ == why,
                _ => false,
            },
    {
        match self {
            StoreAnswer::Tasks(tasks) => Ok(tasks),
            StoreAnswer::Failed(why) => Err(why.clone()),
            _ => Err(ODD_ANSWER.to_owned()),
        }
    }

    /// The epic that was to be made.
    pub fn read_made(&self) -> (r: Result<EpicId, String>)
        ensures
            match (r, self.made()) {
                (Ok(id), Ok(epic)) => id == epic,
                (Err(s), Err(why)) => s@ == why,
                _ => false,
            },
    {
        match self {
            StoreAnswer::Made(epic) => Ok(*epic),
            StoreAnswer::Failed(why) => Err(why.clone()),
            _ => Err(ODD_ANSWER.to_owned()),
        }
    }
}

/// Adds the tasks that are gone.
pub fn note_removed(answer: &StoreAnswer, removed: &mut Vec<RemovedFeedTask>)
    ensures
        removed_views(final(removed)@) == removed_views(old(removed)@) + answer.gone(),
{
    match answer {
        StoreAnswer::Removed(gone) => {
            let ghost before = removed@;
            let mut i: usize = 0;
            assert(removed_views(before) + removed_views(gone@.take(0)) =~= removed_views(before));
            while i < gone.len()
                invariant
                    i <= gone.len(),
                    removed_views(removed@) == removed_views(before) + removed_views(
                        gone@.take(i as int),
                    ),
                decreases gone.len() - i,
            {
                let ghost earlier = removed@;
                let task: RemovedFeedTask = gone[i].copied();
                removed.push(task);
                i += 1;
                proof {
                    assert(removed_views(removed@) =~= removed_views(earlier).push(gone@[i - 1]@));
                    assert(removed_views(gone@.take(i as int)) =~= removed_views(
                        gone@.take(i - 1),
                    ).push(gone@[i - 1]@));
                }
            }
            assert(gone@.take(i as int) =~= gone@);
        },
        _ => {
            assert(removed_views(removed@) + Seq::<RemovedView>::empty() =~= removed_views(
                removed@,
            ));
        },
    }
}

/// What a sync did.
#[derive(Clone, Debug)]
pub struct FeedSyncOutcome {
    /// The epics whose content may have changed.
    pub affected_epics: Vec<EpicId>,
    /// The tasks that are gone.
    pub removed: Vec<RemovedFeedTask>,
}

/// [`FeedSyncOutcome`] as values.
#[verifier::ext_equal]
pub struct OutcomeView {
    pub affected_epics: Seq<EpicId>,
    pub removed: Seq<RemovedView>,
}

impl View for FeedSyncOutcome {
    type V = OutcomeView;

    open spec fn view(&self) -> OutcomeView {
        OutcomeView {
            affected_epics: self.affected_epics@,
            removed: removed_views(self.removed@),
        }
    }
}

/// How far a sync is.
pub enum SyncStep<T> {
    /// It needs this done in the store, and the answer, to go on.
    Ask(StoreAction),
    /// It ended with this, and used the answers before this index.
    Done(T, usize),
    /// It ended with this error.
    Failed(String),
}

/// [`SyncStep`] as values.
#[verifier::ext_equal]
pub enum SyncStepView<V> {
    Ask(StoreActionView),
    Done(V, int),
    Failed(Seq<char>),
}

impl<T: View> View for SyncStep<T> {
    type V = SyncStepView<T::V>;

    open spec fn view(&self) -> SyncStepView<T::V> {
        match self {
            SyncStep::Ask(action) => SyncStepView::Ask(action@),
            SyncStep::Done(value, used) => SyncStepView::Done(value@, *used as int),
            SyncStep::Failed(why) => SyncStepView::Failed(why@),
        }
    }
}

/// Do the two histories begin with the same `n` answers?
pub open spec fn agree(a: Seq<StoreAnswer>, b: Seq<StoreAnswer>, n: int) -> bool {
    &&& n <= a.len()
    &&& n <= b.len()
    &&& forall|i: int| 0 <= i < n ==> a[i] == b[i]
}

/// Only an answer that says so is a failure; one of another sort than was asked for gives
/// neither epics nor tasks nor an epic that was made.
pub proof fn only_the_right_answer_counts(answer: StoreAnswer)
    ensures
        answer.failure() is Some <==> answer is Failed,
        answer.epics() is Ok <==> answer is Epics,
        answer.tasks() is Ok <==> answer is Tasks,
        answer.made() is Ok <==> answer is Made,
        answer matches StoreAnswer::Failed(why) ==> answer.failure() == Some(why@)
            && answer.epics() == Err::<Seq<Epic>, Seq<char>>(why@) && answer.tasks() == Err::<
            Seq<Task>,
            Seq<char>,
        >(why@) && answer.made() == Err::<EpicId, Seq<char>>(why@),
        answer matches StoreAnswer::Epics(epics) ==> answer.epics() == Ok::<Seq<Epic>, Seq<char>>(
            epics@,
        ),
        answer matches StoreAnswer::Tasks(tasks) ==> answer.tasks() == Ok::<Seq<Task>, Seq<char>>(
            tasks@,
        ),
        answer matches StoreAnswer::Made(id) ==> answer.made() == Ok::<EpicId, Seq<char>>(id),
        answer matches StoreAnswer::Removed(gone) ==> answer.gone() == removed_views(gone@),
        !(answer is Removed) ==> answer.gone().len() == 0,
        answer is Finished ==> answer.epics() == Err::<Seq<Epic>, Seq<char>>(
            "the store gave another answer"@,
        ) && answer.tasks() == Err::<Seq<Task>, Seq<char>>("the store gave another answer"@)
            && answer.made() == Err::<EpicId, Seq<char>>("the store gave another answer"@),
{
}

/// Every entry has its item's name, in its place.
pub proof fn each_entry_has_its_name(entries: Seq<EntryView>, i: int)
    requires
        0 <= i < entries.len(),
    ensures
        names_of(entries).len() == entries.len(),
        names_of(entries)[i] == entries[i].item.external_id,
{
}

} // verus!

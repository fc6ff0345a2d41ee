//! The feed tasks that the reviews subtree holds, by their names in the feed.

use vstd::prelude::*;

use crate::feed::store;
use crate::feed::store::{StoreAction, StoreActionView, StoreAnswer, SyncStep, SyncStepView};
use crate::models::{Epic, EpicId, Task, TaskId};
use crate::text;

verus! {

/// A feed task that is on the board.
#[derive(Clone, Debug, PartialEq, Eq)]
pub struct KnownTask {
    pub id: TaskId,
    pub external_id: String,
    pub epic_id: Option<EpicId>,
}

/// [`KnownTask`] as values.
pub struct KnownView {
    pub id: TaskId,
    pub external_id: Seq<char>,
    pub epic_id: Option<EpicId>,
}

impl View for KnownTask {
    type V = KnownView;

    open spec fn view(&self) -> KnownView {
        KnownView { id: self.id, external_id: self.external_id@, epic_id: self.epic_id }
    }
}

/// What a walk through the subtree found: the feed tasks in the order of the
/// walk, and the repository groups.
#[derive(Clone, Debug)]
pub struct Index {
    pub known: Vec<KnownTask>,
    pub groups: Vec<EpicId>,
}

/// [`Index`] as values.
#[verifier::ext_equal]
pub struct IndexView {
    pub known: Seq<KnownView>,
    pub groups: Seq<EpicId>,
}

/// The known tasks as values.
pub open spec fn known_views(known: Seq<KnownTask>) -> Seq<KnownView> {
    known.map_values(|k: KnownTask| k@)
}

impl View for Index {
    type V = IndexView;

    open spec fn view(&self) -> IndexView {
        IndexView { known: known_views(self.known@), groups: self.groups@ }
    }
}

/// The feed tasks among tasks: those with a name.
pub open spec fn feed_tasks(tasks: Seq<Task>) -> Seq<KnownView>
    decreases tasks.len(),
{
    if tasks.len() == 0 {
        Seq::empty()
    } else {
        let before = feed_tasks(tasks.drop_last());
        match tasks.last().external_id {
            Some(name) => before.push(
                KnownView {
                    id: tasks.last().id,
                    external_id: name@,
                    epic_id: tasks.last().epic_id,
                },
            ),
            None => before,
        }
    }
}

/// The last task of the walk with the name: where a task is on the board twice,
/// the one in the place that is walked last stands for both.
pub open spec fn last_known(known: Seq<KnownView>, name: Seq<char>) -> Option<KnownView>
    decreases known.len(),
{
    if known.len() == 0 {
        None
    } else if known.last().external_id == name {
        Some(known.last())
    } else {
        last_known(known.drop_last(), name)
    }
}

/// The identities of epics.
pub open spec fn epic_ids(epics: Seq<Epic>) -> Seq<EpicId> {
    epics.map_values(|e: Epic| e.id)
}

fn ids_of(epics: &Vec<Epic>) -> (r: Vec<EpicId>)
    ensures
        r@ == epic_ids(epics@),
{
    let mut r: Vec<EpicId> = Vec::new();
    let mut i: usize = 0;
    while i < epics.len()
        invariant
            i <= epics.len(),
            r@.len() == i,
            forall|j: int| 0 <= j < i ==> r@[j] == (#[trigger] epics@[j]).id,
        decreases epics.len() - i,
    {
        r.push(epics[i].id);
        i += 1;
    }
    assert(r@ =~= epic_ids(epics@));
    r
}

impl Index {
    /// The known task with the name.
    pub fn find(&self, name: &str) -> (r: Option<&KnownTask>)
        ensures
            match (r, last_known(self@.known, name@)) {
                (Some(task), Some(view)) => task@ == view,
                (None, None) => true,
                _ => false,
            },
    {
        let ghost all = self@.known;
        let mut i: usize = self.known.len();
        assert(all.take(i as int) =~= all);
        while i > 0
            invariant
                i <= self.known.len(),
                all == self@.known,
                last_known(all, name@) == last_known(all.take(i as int), name@),
            decreases i,
        {
            proof {
                assert(all.take(i as int).drop_last() =~= all.take(i - 1));
                assert(all.take(i as int).last() == self.known@[i - 1]@);
            }
            i -= 1;
            if text::same(self.known[i].external_id.as_str(), name) {
                return Some(&self.known[i]);
            }
        }
        None
    }

    /// Adds the feed tasks among tasks.
    fn take_in(&mut self, tasks: &Vec<Task>)
        ensures
            final(self)@ == (IndexView {
                known: old(self)@.known + feed_tasks(tasks@),
                groups: old(self)@.groups,
            }),
    {
        let ghost before = self@.known;
        let ghost groups = self.groups;
        let mut i: usize = 0;
        assert(tasks@.take(0) =~= Seq::empty());
        assert(before + feed_tasks(tasks@.take(0)) =~= before);
        while i < tasks.len()
            invariant
                i <= tasks.len(),
                self.groups == groups,
                self@.known == before + feed_tasks(tasks@.take(i as int)),
            decreases tasks.len() - i,
        {
            proof {
                assert(tasks@.take(i + 1).drop_last() =~= tasks@.take(i as int));
                assert(tasks@.take(i + 1).last() == tasks@[i as int]);
            }
            let task: &Task = &tasks[i];
            match &task.external_id {
                Some(name) => {
                    let ghost earlier = self.known@;
                    let known: KnownTask = KnownTask {
                        id: task.id,
                        external_id: name.clone(),
                        epic_id: task.epic_id,
                    };
                    self.known.push(known);
                    proof {
                        assert(known_views(self.known@) =~= known_views(earlier).push(known@));
                        assert(before + feed_tasks(tasks@.take(i + 1)) =~= (before + feed_tasks(
                            tasks@.take(i as int),
                        )).push(known@));
                    }
                },
                None => {},
            }
            i += 1;
        }
        assert(tasks@.take(i as int) =~= tasks@);
    }
}

/// What the epics hold on top of what is known, by the answers from index `at`
/// on.
pub open spec fn scanned(ids: Seq<EpicId>, index: IndexView, h: Seq<StoreAnswer>, at: int) -> SyncStepView<
    IndexView,
>
    decreases ids.len(),
{
    if ids.len() == 0 {
        SyncStepView::Done(index, at)
    } else if h.len() <= at {
        SyncStepView::Ask(StoreActionView::ListTasks(ids[0]))
    } else {
        match h[at].tasks() {
            Err(why) => SyncStepView::Failed(why),
            Ok(tasks) => scanned(
                ids.skip(1),
                IndexView { known: index.known + feed_tasks(tasks), groups: index.groups },
                h,
                at + 1,
            ),
        }
    }
}

fn scan(ids: &Vec<EpicId>, first: Index, answers: &Vec<StoreAnswer>, start: usize) -> (r: SyncStep<Index>)
    requires
        start <= answers@.len(),
    ensures
        r@ == scanned(ids@, first@, answers@, start as int),
        r@ matches SyncStepView::Done(_, used) ==> start <= used <= answers@.len(),
{
    let mut index: Index = first;
    let mut at: usize = start;
    let mut i: usize = 0;
    assert(ids@.skip(0) =~= ids@);
    while i < ids.len()
        invariant
            i <= ids.len(),
            start <= at <= answers@.len(),
            scanned(ids@, first@, answers@, start as int) == scanned(
                ids@.skip(i as int),
                index@,
                answers@,
                at as int,
            ),
        decreases ids.len() - i,
    {
        assert(ids@.skip(i as int).skip(1) =~= ids@.skip(i + 1));
        if answers.len() <= at {
            return SyncStep::Ask(StoreAction::ListTasks(ids[i]));
        }
        match answers[at].read_tasks() {
            Err(why) => return SyncStep::Failed(why),
            Ok(tasks) => index.take_in(tasks),
        }
        at += 1;
        i += 1;
    }
    SyncStep::Done(index, at)
}

/// What the groups below the roles hold on top of what is known, and which groups
/// there are, by the answers from index `at` on.
pub open spec fn groups_scanned(
    roles: Seq<EpicId>,
    index: IndexView,
    h: Seq<StoreAnswer>,
    at: int,
) -> SyncStepView<IndexView>
    decreases roles.len(),
{
    if roles.len() == 0 {
        SyncStepView::Done(index, at)
    } else if h.len() <= at {
        SyncStepView::Ask(StoreActionView::ListSubEpics(roles[0]))
    } else {
        match h[at].epics() {
            Err(why) => SyncStepView::Failed(why),
            Ok(children) => match scanned(epic_ids(children), index, h, at + 1) {
                SyncStepView::Ask(action) => SyncStepView::Ask(action),
                SyncStepView::Failed(why) => SyncStepView::Failed(why),
                SyncStepView::Done(index, at) => groups_scanned(
                    roles.skip(1),
                    IndexView { known: index.known, groups: index.groups + epic_ids(children) },
                    h,
                    at,
                ),
            },
        }
    }
}

fn scan_groups(roles: &Vec<EpicId>, first: Index, answers: &Vec<StoreAnswer>, start: usize) -> (r:
    SyncStep<Index>)
    requires
        start <= answers@.len(),
    ensures
        r@ == groups_scanned(roles@, first@, answers@, start as int),
        r@ matches SyncStepView::Done(_, used) ==> start <= used <= answers@.len(),
{
    let mut index: Index = first;
    let mut at: usize = start;
    let mut i: usize = 0;
    assert(roles@.skip(0) =~= roles@);
    while i < roles.len()
        invariant
            i <= roles.len(),
            start <= at <= answers@.len(),
            groups_scanned(roles@, first@, answers@, start as int) == groups_scanned(
                roles@.skip(i as int),
                index@,
                answers@,
                at as int,
            ),
        decreases roles.len() - i,
    {
        assert(roles@.skip(i as int).skip(1) =~= roles@.skip(i + 1));
        if answers.len() <= at {
            return SyncStep::Ask(StoreAction::ListSubEpics(roles[i]));
        }
        let mut ids: Vec<EpicId> = match answers[at].read_epics() {
            Err(why) => return SyncStep::Failed(why),
            Ok(children) => ids_of(children),
        };
        match scan(&ids, index, answers, at + 1) {
            SyncStep::Ask(action) => return SyncStep::Ask(action),
            SyncStep::Failed(why) => return SyncStep::Failed(why),
            SyncStep::Done(found, used) => {
                index = found;
                at = used;
            },
        }
        index.groups.append(&mut ids);
        i += 1;
    }
    SyncStep::Done(index, at)
}

/// What the reviews subtree holds, by the answers from index `at` on. The parent
/// is walked first, then the groups below the roles, then the roles.
pub open spec fn indexed(parent: EpicId, roles: Seq<EpicId>, h: Seq<StoreAnswer>, at: int) -> SyncStepView<
    IndexView,
> {
    match scanned(seq![parent], IndexView { known: Seq::empty(), groups: Seq::empty() }, h, at) {
        SyncStepView::Ask(action) => SyncStepView::Ask(action),
        SyncStepView::Failed(why) => SyncStepView::Failed(why),
        SyncStepView::Done(index, at) => match groups_scanned(roles, index, h, at) {
            SyncStepView::Ask(action) => SyncStepView::Ask(action),
            SyncStepView::Failed(why) => SyncStepView::Failed(why),
            SyncStepView::Done(index, at) => scanned(roles, index, h, at),
        },
    }
}

/// Find out what the reviews subtree holds.
pub fn build_existing_task_index(
    parent: EpicId,
    roles: &Vec<EpicId>,
    answers: &Vec<StoreAnswer>,
    at: usize,
) -> (r: SyncStep<Index>)
    requires
        at <= answers@.len(),
    ensures
        r@ == indexed(parent, roles@, answers@, at as int),
        r@ matches SyncStepView::Done(_, used) ==> at <= used <= answers@.len(),
{
    let index: Index = Index { known: Vec::new(), groups: Vec::new() };
    let top: Vec<EpicId> = vec![parent];
    proof {
        assert(index@ =~= IndexView { known: Seq::empty(), groups: Seq::empty() });
        assert(top@ =~= seq![parent]);
    }
    let (index, at): (Index, usize) = match scan(&top, index, answers, at) {
        SyncStep::Ask(action) => return SyncStep::Ask(action),
        SyncStep::Failed(why) => return SyncStep::Failed(why),
        SyncStep::Done(index, at) => (index, at),
    };
    let (index, at): (Index, usize) = match scan_groups(roles, index, answers, at) {
        SyncStep::Ask(action) => return SyncStep::Ask(action),
        SyncStep::Failed(why) => return SyncStep::Failed(why),
        SyncStep::Done(index, at) => (index, at),
    };
    scan(roles, index, answers, at)
}

proof fn lemma_scan_settled(
    ids: Seq<EpicId>,
    index: IndexView,
    h: Seq<StoreAnswer>,
    g: Seq<StoreAnswer>,
    at: int,
)
    requires
        0 <= at <= h.len(),
    ensures
        scanned(ids, index, h, at) matches SyncStepView::Done(_, used) ==> at <= used <= h.len() && (
        store::agree(h, g, used) ==> scanned(ids, index, g, at) == scanned(ids, index, h, at)),
        scanned(ids, index, h, at) matches SyncStepView::Ask(a) ==> !a.removes() && !a.writes() && !a.moves(),
    decreases ids.len(),
{
    if ids.len() > 0 && at < h.len() {
        match h[at].tasks() {
            Ok(tasks) => {
                lemma_scan_settled(
                    ids.skip(1),
                    IndexView { known: index.known + feed_tasks(tasks), groups: index.groups },
                    h,
                    g,
                    at + 1,
                );
            },
            Err(_) => {},
        }
    }
}

proof fn lemma_group_scan_settled(
    roles: Seq<EpicId>,
    index: IndexView,
    h: Seq<StoreAnswer>,
    g: Seq<StoreAnswer>,
    at: int,
)
    requires
        0 <= at <= h.len(),
    ensures
        groups_scanned(roles, index, h, at) matches SyncStepView::Done(_, used) ==> at <= used
            <= h.len() && (store::agree(h, g, used) ==> groups_scanned(roles, index, g, at)
            == groups_scanned(roles, index, h, at)),
        groups_scanned(roles, index, h, at) matches SyncStepView::Ask(a) ==> !a.removes() && !a.writes() && !a.moves(),
    decreases roles.len(),
{
    if roles.len() > 0 && at < h.len() {
        match h[at].epics() {
            Ok(children) => {
                lemma_scan_settled(epic_ids(children), index, h, g, at + 1);
                match scanned(epic_ids(children), index, h, at + 1) {
                    SyncStepView::Done(index, at) => {
                        lemma_group_scan_settled(
                            roles.skip(1),
                            IndexView {
                                known: index.known,
                                groups: index.groups + epic_ids(children),
                            },
                            h,
                            g,
                            at,
                        );
                    },
                    _ => {},
                }
            },
            Err(_) => {},
        }
    }
}

/// Once the subtree is walked, later answers change nothing about it; and until
/// then nothing is written, removed or moved.
pub proof fn lemma_index_settled(
    parent: EpicId,
    roles: Seq<EpicId>,
    h: Seq<StoreAnswer>,
    g: Seq<StoreAnswer>,
    at: int,
)
    requires
        0 <= at <= h.len(),
    ensures
        indexed(parent, roles, h, at) matches SyncStepView::Done(_, used) ==> at <= used <= h.len()
            && (store::agree(h, g, used) ==> indexed(parent, roles, g, at) == indexed(
            parent,
            roles,
            h,
            at,
        )),
        indexed(parent, roles, h, at) matches SyncStepView::Ask(a) ==> !a.removes() && !a.writes() && !a.moves(),
{
    let nothing = IndexView { known: Seq::empty(), groups: Seq::empty() };
    lemma_scan_settled(seq![parent], nothing, h, g, at);
    match scanned(seq![parent], nothing, h, at) {
        SyncStepView::Done(index, at) => {
            lemma_group_scan_settled(roles, index, h, g, at);
            match groups_scanned(roles, index, h, at) {
                SyncStepView::Done(index, at) => {
                    lemma_scan_settled(roles, index, h, g, at);
                },
                _ => {},
            }
        },
        _ => {},
    }
}

/// A task with a name is known, by its number, its name and its epic; one made by hand is
/// not.
pub proof fn every_feed_task_is_known(tasks: Seq<Task>, task: Task)
    ensures
        task.external_id matches Some(name) ==> feed_tasks(tasks.push(task)) == feed_tasks(
            tasks,
        ).push(KnownView { id: task.id, external_id: name@, epic_id: task.epic_id }),
        task.external_id is None ==> feed_tasks(tasks.push(task)) == feed_tasks(tasks),
        feed_tasks(Seq::<Task>::empty()) == Seq::<KnownView>::empty(),
{
    assert(tasks.push(task).drop_last() =~= tasks);
}

/// Of tasks with one name the last that was found stands for all of them.
pub proof fn the_last_task_found_counts(known: Seq<KnownView>, task: KnownView, name: Seq<char>)
    ensures
        last_known(known.push(task), task.external_id) == Some(task),
        name != task.external_id ==> last_known(known.push(task), name) == last_known(known, name),
        last_known(Seq::<KnownView>::empty(), name) is None,
{
    assert(known.push(task).drop_last() =~= known);
}

/// The epics are listed one after the other, each by itself; the first that cannot be
/// listed ends the sync.
pub proof fn epics_are_listed_in_turn(
    ids: Seq<EpicId>,
    sofar: IndexView,
    h: Seq<StoreAnswer>,
    at: int,
)
    requires
        0 <= at,
        ids.len() > 0,
    ensures
        h.len() == at ==> scanned(ids, sofar, h, at) == SyncStepView::<IndexView>::Ask(
            StoreActionView::ListTasks(ids[0]),
        ),
        at < h.len() && !(h[at] is Tasks) ==> scanned(ids, sofar, h, at) is Failed,
        h.len() == at ==> groups_scanned(ids, sofar, h, at) == SyncStepView::<IndexView>::Ask(
            StoreActionView::ListSubEpics(ids[0]),
        ),
        at < h.len() && !(h[at] is Epics) ==> groups_scanned(ids, sofar, h, at) is Failed,
        at < h.len() && ids.len() == 1 ==> (h[at] matches StoreAnswer::Tasks(tasks) ==> (scanned(
            ids,
            sofar,
            h,
            at,
        ) matches SyncStepView::Done(found, used) && used == at + 1 && found.known == sofar.known
            + feed_tasks(tasks@) && found.groups == sofar.groups)),
{
    reveal_with_fuel(scanned, 2);
    assert(ids.skip(1).len() == ids.len() - 1);
}

/// The parent is walked first, then what is below each role, and the roles themselves
/// last: a task in a role counts before one of the same name elsewhere.
pub proof fn the_roles_are_walked_last(
    parent: EpicId,
    role: EpicId,
    h: Seq<StoreAnswer>,
    at: int,
    above: Seq<Task>,
    groups: Seq<Epic>,
    inside: Seq<Task>,
)
    requires
        0 <= at,
        at < h.len() ==> (h[at] matches StoreAnswer::Tasks(tasks) && tasks@ == above),
        at + 1 < h.len() ==> (h[at + 1] matches StoreAnswer::Epics(epics) && epics@ == groups),
        groups.len() == 0,
        at + 2 < h.len() ==> (h[at + 2] matches StoreAnswer::Tasks(tasks) && tasks@ == inside),
    ensures
        ({
            let step = indexed(parent, seq![role], h, at);
            &&& h.len() == at ==> step == SyncStepView::<IndexView>::Ask(
                StoreActionView::ListTasks(parent),
            )
            &&& h.len() == at + 1 ==> step == SyncStepView::<IndexView>::Ask(
                StoreActionView::ListSubEpics(role),
            )
            &&& h.len() == at + 2 ==> step == SyncStepView::<IndexView>::Ask(
                StoreActionView::ListTasks(role),
            )
            &&& h.len() > at + 2 ==> (step matches SyncStepView::Done(found, used) && used == at + 3
                && found.known == feed_tasks(above) + feed_tasks(inside))
        }),
{
    reveal_with_fuel(scanned, 3);
    reveal_with_fuel(groups_scanned, 3);
    assert(epic_ids(groups) =~= Seq::empty());
    assert(seq![role].skip(1) =~= Seq::empty());
    assert(seq![parent].skip(1) =~= Seq::empty());
    assert(Seq::<KnownView>::empty() + feed_tasks(above) =~= feed_tasks(above));
}

} // verus!

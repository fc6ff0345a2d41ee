//! Where each entry of a reviews emission goes, and moving the tasks that are
//! elsewhere.

use vstd::prelude::*;

use crate::feed::entries;
use crate::feed::entries::{EntryView, FeedItemWithTarget};
use crate::feed::ingest::index;
use crate::feed::ingest::index::{Index, KnownView};
use crate::feed::ingest::roles;
use crate::feed::ingest::roles::{RoleSubEpics, RolesView};
use crate::feed::repos;
use crate::feed::routing;
use crate::feed::store;
use crate::feed::store::{StoreAction, StoreActionView, StoreAnswer, SyncStep, SyncStepView};
use crate::models::{EpicId, FeedItem, FeedItemView, FeedRole, TaskId};
use crate::text;

verus! {

/// The group of a repository below a role's sub-epic.
#[derive(Clone, Debug, PartialEq, Eq)]
pub struct RepoGroup {
    pub role: EpicId,
    pub repo: String,
    pub id: EpicId,
}

/// [`RepoGroup`] as values.
pub struct GroupView {
    pub role: EpicId,
    pub repo: Seq<char>,
    pub id: EpicId,
}

impl View for RepoGroup {
    type V = GroupView;

    open spec fn view(&self) -> GroupView {
        GroupView { role: self.role, repo: self.repo@, id: self.id }
    }
}

/// The groups as values.
pub open spec fn group_views(groups: Seq<RepoGroup>) -> Seq<GroupView> {
    groups.map_values(|g: RepoGroup| g@)
}

/// The group of a repository that was used before.
pub open spec fn used_before(groups: Seq<GroupView>, role: EpicId, repo: Seq<char>) -> Option<EpicId>
    decreases groups.len(),
{
    if groups.len() == 0 {
        None
    } else if groups.last().role == role && groups.last().repo == repo {
        Some(groups.last().id)
    } else {
        used_before(groups.drop_last(), role, repo)
    }
}

fn find_group(groups: &Vec<RepoGroup>, role: EpicId, repo: &str) -> (r: Option<EpicId>)
    ensures
        r == used_before(group_views(groups@), role, repo@),
{
    let ghost all = group_views(groups@);
    let mut i: usize = groups.len();
    assert(all.take(i as int) =~= all);
    while i > 0
        invariant
            i <= groups.len(),
            all == group_views(groups@),
            used_before(all, role, repo@) == used_before(all.take(i as int), role, repo@),
        decreases i,
    {
        proof {
            assert(all.take(i as int).drop_last() =~= all.take(i - 1));
            assert(all.take(i as int).last() == groups@[i - 1]@);
        }
        i -= 1;
        if groups[i].role == role && text::same(groups[i].repo.as_str(), repo) {
            return Some(groups[i].id);
        }
    }
    None
}

/// Where the entries so far go, and the groups that were used for it.
#[derive(Clone, Debug)]
pub struct RoutedEntries {
    /// The epic of each entry.
    pub targets: Vec<EpicId>,
    pub groups: Vec<RepoGroup>,
}

/// [`RoutedEntries`] as values.
#[verifier::ext_equal]
pub struct RoutedView {
    pub targets: Seq<EpicId>,
    pub groups: Seq<GroupView>,
}

impl View for RoutedEntries {
    type V = RoutedView;

    open spec fn view(&self) -> RoutedView {
        RoutedView { targets: self.targets@, groups: group_views(self.groups@) }
    }
}

/// Where one more entry goes, by the answers from index `at` on: to the sub-epic
/// of its role, or, where that sorts its tasks, to the group of its repository. A
/// group is asked for once; where there can be none, the sub-epic takes the entry.
pub open spec fn placed(
    item: FeedItemView,
    sofar: RoutedView,
    to: RolesView,
    h: Seq<StoreAnswer>,
    at: int,
) -> SyncStepView<RoutedView> {
    let role = to.target(routing::role_of(item.signals));
    let repo = repos::group_name(item.url);
    if !roles::sorts_by_repo(to.subs, role) {
        SyncStepView::Done(
            RoutedView { targets: sofar.targets.push(role), groups: sofar.groups },
            at,
        )
    } else {
        match used_before(sofar.groups, role, repo) {
            Some(id) => SyncStepView::Done(
                RoutedView { targets: sofar.targets.push(id), groups: sofar.groups },
                at,
            ),
            None => if h.len() <= at {
                SyncStepView::Ask(StoreActionView::CreateRepoGroup { parent: role, repo })
            } else {
                match h[at].made() {
                    Ok(id) => SyncStepView::Done(
                        RoutedView {
                            targets: sofar.targets.push(id),
                            groups: sofar.groups.push(GroupView { role, repo, id }),
                        },
                        at + 1,
                    ),
                    Err(_) => SyncStepView::Done(
                        RoutedView { targets: sofar.targets.push(role), groups: sofar.groups },
                        at + 1,
                    ),
                }
            },
        }
    }
}

fn place(
    item: &FeedItem,
    sofar: RoutedEntries,
    to: &RoleSubEpics<'_>,
    answers: &Vec<StoreAnswer>,
    at: usize,
) -> (r: SyncStep<RoutedEntries>)
    requires
        at <= answers@.len(),
    ensures
        r@ == placed(item@, sofar@, to@, answers@, at as int),
        r@ matches SyncStepView::Done(_, used) ==> at <= used <= answers@.len(),
{
    let mut sofar: RoutedEntries = sofar;
    let role: EpicId = to.target_for(routing::route(item.signals.as_slice()));
    if !to.can_auto_group(role) {
        sofar.targets.push(role);
        return SyncStep::Done(sofar, at);
    }
    let repo: String = repos::repo_name_from_url(item.url.as_str());
    match find_group(&sofar.groups, role, repo.as_str()) {
        Some(id) => {
            sofar.targets.push(id);
            SyncStep::Done(sofar, at)
        },
        None => {
            if answers.len() <= at {
                return SyncStep::Ask(StoreAction::CreateRepoGroup { parent: role, repo });
            }
            match answers[at].read_made() {
                Ok(id) => {
                    let ghost before = sofar.groups@;
                    let group: RepoGroup = RepoGroup { role, repo, id };
                    sofar.targets.push(id);
                    sofar.groups.push(group);
                    assert(group_views(sofar.groups@) =~= group_views(before).push(group@));
                    SyncStep::Done(sofar, at + 1)
                },
                Err(_) => {
                    sofar.targets.push(role);
                    SyncStep::Done(sofar, at + 1)
                },
            }
        },
    }
}

/// Giving a task what its item says of it now. The task's order is the user's, and
/// the item's has no say in it.
pub open spec fn refreshed(task: TaskId, item: FeedItemView) -> StoreActionView {
    StoreActionView::RefreshTask {
        task,
        title: item.title,
        description: item.description,
        tag: item.tag,
        labels: item.labels,
    }
}

/// Seeing to it that an item's task, where there is one, is in an epic, by the
/// answers from index `at` on. A task that is elsewhere is moved, which leaves the
/// work on it and its order alone, and then refreshed.
pub open spec fn rehomed(
    item: FeedItemView,
    known: Seq<KnownView>,
    target: EpicId,
    h: Seq<StoreAnswer>,
    at: int,
) -> SyncStepView<()> {
    match index::last_known(known, item.external_id) {
        Some(task) => if task.epic_id == Some(target) {
            SyncStepView::Done((), at)
        } else if h.len() <= at {
            SyncStepView::Ask(StoreActionView::MoveTask { task: task.id, epic: target })
        } else {
            match h[at].failure() {
                Some(why) => SyncStepView::Failed(why),
                None => if h.len() <= at + 1 {
                    SyncStepView::Ask(refreshed(task.id, item))
                } else {
                    match h[at + 1].failure() {
                        Some(why) => SyncStepView::Failed(why),
                        None => SyncStepView::Done((), at + 2),
                    }
                },
            }
        },
        None => SyncStepView::Done((), at),
    }
}

fn rehome(item: &FeedItem, found: &Index, target: EpicId, answers: &Vec<StoreAnswer>, at: usize) -> (r:
    SyncStep<()>)
    requires
        at <= answers@.len(),
    ensures
        r@ == rehomed(item@, found@.known, target, answers@, at as int),
        r@ matches SyncStepView::Done(_, used) ==> at <= used <= answers@.len(),
{
    match found.find(item.external_id.as_str()) {
        Some(task) => {
            let there: bool = match task.epic_id {
                Some(epic) => epic == target,
                None => false,
            };
            if there {
                return SyncStep::Done((), at);
            }
            if answers.len() <= at {
                return SyncStep::Ask(StoreAction::MoveTask { task: task.id, epic: target });
            }
            match answers[at].why_failed() {
                Some(why) => return SyncStep::Failed(why),
                None => {},
            }
            if answers.len() - 1 <= at {
                return SyncStep::Ask(
                    StoreAction::RefreshTask {
                        task: task.id,
                        title: item.title.clone(),
                        description: item.description.clone(),
                        tag: item.tag,
                        labels: entries::copied_texts(&item.labels),
                    },
                );
            }
            match answers[at + 1].why_failed() {
                Some(why) => SyncStep::Failed(why),
                None => SyncStep::Done((), at + 2),
            }
        },
        None => SyncStep::Done((), at),
    }
}

/// Where the entries go on top of those so far, with their tasks moved there, by
/// the answers from index `at` on.
pub open spec fn routed(
    entries: Seq<EntryView>,
    sofar: RoutedView,
    to: RolesView,
    known: Seq<KnownView>,
    h: Seq<StoreAnswer>,
    at: int,
) -> SyncStepView<RoutedView>
    decreases entries.len(),
{
    if entries.len() == 0 {
        SyncStepView::Done(sofar, at)
    } else {
        match placed(entries[0].item, sofar, to, h, at) {
            SyncStepView::Ask(action) => SyncStepView::Ask(action),
            SyncStepView::Failed(why) => SyncStepView::Failed(why),
            SyncStepView::Done(more, at) => match rehomed(
                entries[0].item,
                known,
                more.targets.last(),
                h,
                at,
            ) {
                SyncStepView::Ask(action) => SyncStepView::Ask(action),
                SyncStepView::Failed(why) => SyncStepView::Failed(why),
                SyncStepView::Done(_, at) => routed(entries.skip(1), more, to, known, h, at),
            },
        }
    }
}

/// Find out where the entries go, and move their tasks there.
pub fn route_and_group_entries(
    entries: &Vec<FeedItemWithTarget>,
    to: &RoleSubEpics<'_>,
    found: &Index,
    answers: &Vec<StoreAnswer>,
    start: usize,
) -> (r: SyncStep<RoutedEntries>)
    requires
        start <= answers@.len(),
    ensures
        r@ == routed(
            entries::entry_views(entries@),
            RoutedView { targets: Seq::empty(), groups: Seq::empty() },
            to@,
            found@.known,
            answers@,
            start as int,
        ),
        r@ matches SyncStepView::Done(_, used) ==> start <= used <= answers@.len(),
{
    let ghost views = entries::entry_views(entries@);
    let mut sofar: RoutedEntries = RoutedEntries { targets: Vec::new(), groups: Vec::new() };
    let mut at: usize = start;
    let mut i: usize = 0;
    proof {
        assert(sofar@ =~= RoutedView { targets: Seq::empty(), groups: Seq::empty() });
        assert(views.skip(0) =~= views);
    }
    while i < entries.len()
        invariant
            i <= entries.len(),
            start <= at <= answers@.len(),
            views == entries::entry_views(entries@),
            routed(
                views,
                RoutedView { targets: Seq::empty(), groups: Seq::empty() },
                to@,
                found@.known,
                answers@,
                start as int,
            ) == routed(
                views.skip(i as int),
                sofar@,
                to@,
                found@.known,
                answers@,
                at as int,
            ),
        decreases entries.len() - i,
    {
        proof {
            assert(views.skip(i as int)[0] == entries@[i as int]@);
            assert(views.skip(i as int).skip(1) =~= views.skip(i + 1));
        }
        let item: &FeedItem = &entries[i].item;
        match place(item, sofar, to, answers, at) {
            SyncStep::Ask(action) => return SyncStep::Ask(action),
            SyncStep::Failed(why) => return SyncStep::Failed(why),
            SyncStep::Done(more, used) => {
                sofar = more;
                at = used;
            },
        }
        assert(sofar.targets@.len() > 0);
        let target: EpicId = sofar.targets[sofar.targets.len() - 1];
        match rehome(item, found, target, answers, at) {
            SyncStep::Ask(action) => return SyncStep::Ask(action),
            SyncStep::Failed(why) => return SyncStep::Failed(why),
            SyncStep::Done(_, used) => {
                at = used;
            },
        }
        i += 1;
    }
    SyncStep::Done(sofar, at)
}

/// Once they are all placed, there is a place for each entry, behind those so far.
pub proof fn lemma_every_entry_is_placed(
    entries: Seq<EntryView>,
    sofar: RoutedView,
    to: RolesView,
    known: Seq<KnownView>,
    h: Seq<StoreAnswer>,
    at: int,
)
    ensures
        routed(entries, sofar, to, known, h, at) matches SyncStepView::Done(all, _)
            ==> all.targets.len() == sofar.targets.len() + entries.len()
            && sofar.targets.is_prefix_of(all.targets),
    decreases entries.len(),
{
    if entries.len() > 0 {
        match placed(entries[0].item, sofar, to, h, at) {
            SyncStepView::Done(more, at) => {
                match rehomed(entries[0].item, known, more.targets.last(), h, at) {
                    SyncStepView::Done(_, at) => {
                        lemma_every_entry_is_placed(entries.skip(1), more, to, known, h, at);
                    },
                    _ => {},
                }
            },
            _ => {},
        }
    }
}

/// Once the entries are placed, later answers change nothing about it; and until
/// then nothing is written or removed.
pub proof fn lemma_routing_settled(
    entries: Seq<EntryView>,
    sofar: RoutedView,
    to: RolesView,
    known: Seq<KnownView>,
    h: Seq<StoreAnswer>,
    g: Seq<StoreAnswer>,
    at: int,
)
    requires
        0 <= at <= h.len(),
    ensures
        routed(entries, sofar, to, known, h, at) matches SyncStepView::Done(_, used) ==> at <= used
            <= h.len() && (store::agree(h, g, used) ==> routed(entries, sofar, to, known, g, at)
            == routed(entries, sofar, to, known, h, at)),
        routed(entries, sofar, to, known, h, at) matches SyncStepView::Ask(a) ==> !a.removes()
            && !a.writes(),
    decreases entries.len(),
{
    if entries.len() > 0 {
        match placed(entries[0].item, sofar, to, h, at) {
            SyncStepView::Done(more, at) => {
                match rehomed(entries[0].item, known, more.targets.last(), h, at) {
                    SyncStepView::Done(_, at) => {
                        lemma_routing_settled(entries.skip(1), more, to, known, h, g, at);
                    },
                    _ => {},
                }
            },
            _ => {},
        }
    }
}

/// A known task that is not where its item goes is moved there.
pub proof fn lemma_misplaced_task_is_moved(
    entries: Seq<EntryView>,
    sofar: RoutedView,
    to: RolesView,
    known: Seq<KnownView>,
    h: Seq<StoreAnswer>,
    at: int,
    i: int,
) -> (k: int)
    requires
        0 <= at <= h.len(),
        0 <= i < entries.len(),
        routed(entries, sofar, to, known, h, at) is Done,
        index::last_known(known, entries[i].item.external_id) matches Some(task) && task.epic_id
            != Some(
            routed(entries, sofar, to, known, h, at)->Done_0.targets[sofar.targets.len() + i],
        ),
    ensures
        at <= k < routed(entries, sofar, to, known, h, at)->Done_1 <= h.len(),
        routed(entries, sofar, to, known, h.take(k), at) == SyncStepView::<RoutedView>::Ask(
            StoreActionView::MoveTask {
                task: index::last_known(known, entries[i].item.external_id)->0.id,
                epic: routed(entries, sofar, to, known, h, at)->Done_0.targets[sofar.targets.len()
                    + i],
            },
        ),
        h[k].failure() is None,
    decreases entries.len(),
{
    let more = placed(entries[0].item, sofar, to, h, at)->Done_0;
    let mid = placed(entries[0].item, sofar, to, h, at)->Done_1;
    let end = rehomed(entries[0].item, known, more.targets.last(), h, mid)->Done_1;
    let rest = entries.skip(1);
    lemma_every_entry_is_placed(rest, more, to, known, h, end);
    lemma_routing_settled(rest, more, to, known, h, h, end);
    if i == 0 {
        assert(more.targets.last() == more.targets[sofar.targets.len() as int]);
        mid
    } else {
        assert(entries[i] == rest[i - 1]);
        let k = lemma_misplaced_task_is_moved(rest, more, to, known, h, end, i - 1);
        let g = h.take(k);
        assert(store::agree(h, g, end));
        assert(placed(entries[0].item, sofar, to, g, at) == placed(
            entries[0].item,
            sofar,
            to,
            h,
            at,
        ));
        assert(rehomed(entries[0].item, known, more.targets.last(), g, mid) == rehomed(
            entries[0].item,
            known,
            more.targets.last(),
            h,
            mid,
        ));
        k
    }
}

/// Every entry's place is the sub-epic of its role or a group that was used.
pub proof fn lemma_places_are_at_hand(
    entries: Seq<EntryView>,
    sofar: RoutedView,
    to: RolesView,
    known: Seq<KnownView>,
    h: Seq<StoreAnswer>,
    at: int,
)
    requires
        forall|i: int|
            0 <= i < sofar.targets.len() ==> to.ids().contains(#[trigger] sofar.targets[i])
                || sofar.groups.map_values(|g: GroupView| g.id).contains(sofar.targets[i]),
    ensures
        routed(entries, sofar, to, known, h, at) matches SyncStepView::Done(all, _) ==> forall|i: int|
            0 <= i < all.targets.len() ==> to.ids().contains(#[trigger] all.targets[i])
                || all.groups.map_values(|g: GroupView| g.id).contains(all.targets[i]),
    decreases entries.len(),
{
    if entries.len() > 0 {
        let item = entries[0].item;
        match placed(item, sofar, to, h, at) {
            SyncStepView::Done(more, mid) => {
                let role = to.target(routing::role_of(item.signals));
                let repo = repos::group_name(item.url);
                let ids = sofar.groups.map_values(|g: GroupView| g.id);
                let more_ids = more.groups.map_values(|g: GroupView| g.id);
                assert(to.ids().contains(role)) by {
                    assert(to.ids()[0] == to.my && to.ids()[1] == to.team && to.ids()[2]
                        == to.bots);
                }
                assert(ids.len() <= more_ids.len() && forall|j: int|
                    0 <= j < ids.len() ==> ids[j] == more_ids[j]);
                lemma_used_before(sofar.groups, role, repo);
                assert forall|i: int| 0 <= i < more.targets.len() implies to.ids().contains(
                    #[trigger] more.targets[i],
                ) || more_ids.contains(more.targets[i]) by {
                    if i < sofar.targets.len() {
                        assert(more.targets[i] == sofar.targets[i]);
                        if ids.contains(sofar.targets[i]) {
                            let j = choose|j: int| 0 <= j < ids.len() && ids[j] == sofar.targets[i];
                            assert(more_ids[j] == sofar.targets[i]);
                        }
                    } else if more.groups.len() > sofar.groups.len() {
                        assert(more_ids[sofar.groups.len() as int] == more.targets[i]);
                    }
                }
                match rehomed(item, known, more.targets.last(), h, mid) {
                    SyncStepView::Done(_, end) => {
                        lemma_places_are_at_hand(entries.skip(1), more, to, known, h, end);
                    },
                    _ => {},
                }
            },
            _ => {},
        }
    }
}

proof fn lemma_used_before(groups: Seq<GroupView>, role: EpicId, repo: Seq<char>)
    ensures
        used_before(groups, role, repo) matches Some(id) ==> groups.map_values(
            |g: GroupView| g.id,
        ).contains(id),
    decreases groups.len(),
{
    if groups.len() > 0 {
        let ids = groups.map_values(|g: GroupView| g.id);
        if groups.last().role == role && groups.last().repo == repo {
            assert(ids[groups.len() - 1] == groups.last().id);
        } else {
            let before = groups.drop_last();
            lemma_used_before(before, role, repo);
            match used_before(before, role, repo) {
                Some(id) => {
                    let earlier = before.map_values(|g: GroupView| g.id);
                    let j = choose|j: int| 0 <= j < earlier.len() && earlier[j] == id;
                    assert(ids[j] == id);
                },
                None => {},
            }
        }
    }
}

/// A group is asked for only where none is used for the repository yet, and one
/// that is used stays so: entries that share a repository share a group.
pub proof fn one_group_for_a_repository(
    item: FeedItemView,
    sofar: RoutedView,
    to: RolesView,
    h: Seq<StoreAnswer>,
    at: int,
    role: EpicId,
    repo: Seq<char>,
)
    requires
        used_before(sofar.groups, role, repo) is Some,
    ensures
        placed(item, sofar, to, h, at) != SyncStepView::<RoutedView>::Ask(
            StoreActionView::CreateRepoGroup { parent: role, repo },
        ),
        placed(item, sofar, to, h, at) matches SyncStepView::Done(more, _) ==> used_before(
            more.groups,
            role,
            repo,
        ) == used_before(sofar.groups, role, repo),
{
    match placed(item, sofar, to, h, at) {
        SyncStepView::Done(more, _) => {
            if more.groups.len() > sofar.groups.len() {
                assert(more.groups.drop_last() =~= sofar.groups);
            }
        },
        _ => {},
    }
}

/// An item goes to its role's sub-epic, unless that sorts its tasks by repository; then it
/// goes to the repository's group there, which is asked for once. Where the store makes
/// none, the sub-epic takes the item after all.
pub proof fn an_item_goes_to_its_role_or_its_group(
    item: FeedItemView,
    sofar: RoutedView,
    to: RolesView,
    h: Seq<StoreAnswer>,
    at: int,
    role: EpicId,
)
    requires
        0 <= at,
        ({
            let own = routing::role_of(item.signals);
            role == (if own == FeedRole::TeamReviews {
                to.team
            } else if own == FeedRole::Bots {
                to.bots
            } else {
                to.my
            })
        }),
    ensures
        ({
            let step = placed(item, sofar, to, h, at);
            let repo = repos::group_name(item.url);
            let sorted = roles::sorts_by_repo(to.subs, role);
            let used = used_before(sofar.groups, role, repo);
            &&& !sorted ==> (step matches SyncStepView::Done(more, n) && n == at && more.targets
                == sofar.targets.push(role) && more.groups == sofar.groups)
            &&& sorted ==> (used matches Some(id) ==> (step matches SyncStepView::Done(more, n) && n
                == at && more.targets == sofar.targets.push(id) && more.groups == sofar.groups))
            &&& sorted && used is None && h.len() == at ==> step == SyncStepView::<RoutedView>::Ask(
                StoreActionView::CreateRepoGroup { parent: role, repo },
            )
            &&& sorted && used is None && at < h.len() && h[at] is Made ==> (step
                matches SyncStepView::Done(more, n) && n == at + 1 && more.targets
                == sofar.targets.push(h[at]->Made_0) && used_before(more.groups, role, repo)
                == Some(h[at]->Made_0))
            &&& sorted && used is None && at < h.len() && !(h[at] is Made) ==> (step
                matches SyncStepView::Done(more, n) && n == at + 1 && more.targets
                == sofar.targets.push(role) && more.groups == sofar.groups)
        }),
{
}

/// A task that is elsewhere is moved to where its item goes, and then given the title, the
/// description, the tag and the labels of the item; one that is there, and an item without
/// a task, cost nothing. Where either fails, so does the sync.
pub proof fn a_moved_task_says_what_its_item_says(
    item: FeedItemView,
    known: Seq<KnownView>,
    target: EpicId,
    h: Seq<StoreAnswer>,
    at: int,
)
    requires
        0 <= at,
    ensures
        ({
            let step = rehomed(item, known, target, h, at);
            let task = index::last_known(known, item.external_id);
            let elsewhere = task is Some && task->0.epic_id != Some(target);
            &&& !elsewhere ==> step == SyncStepView::Done((), at)
            &&& elsewhere && h.len() == at ==> step == SyncStepView::<()>::Ask(
                StoreActionView::MoveTask { task: task->0.id, epic: target },
            )
            &&& elsewhere && at < h.len() && h[at] is Failed ==> step is Failed
            &&& elsewhere && h.len() == at + 1 && !(h[at] is Failed) ==> step == SyncStepView::<
                (),
            >::Ask(
                StoreActionView::RefreshTask {
                    task: task->0.id,
                    title: item.title,
                    description: item.description,
                    tag: item.tag,
                    labels: item.labels,
                },
            )
            &&& elsewhere && h.len() > at + 1 && !(h[at] is Failed) ==> if h[at + 1] is Failed {
                step is Failed
            } else {
                step == SyncStepView::Done((), at + 2)
            }
        }),
{
}

/// The group that was used last for a repository below a role is the one that counts, and
/// one for another role or repository does not.
pub proof fn a_used_group_is_found_again(groups: Seq<GroupView>, group: GroupView, role: EpicId, repo: Seq<char>)
    ensures
        used_before(groups.push(group), group.role, group.repo) == Some(group.id),
        group.role != role || group.repo != repo ==> used_before(groups.push(group), role, repo)
            == used_before(groups, role, repo),
        used_before(Seq::<GroupView>::empty(), role, repo) is None,
{
    assert(groups.push(group).drop_last() =~= groups);
}

} // verus!

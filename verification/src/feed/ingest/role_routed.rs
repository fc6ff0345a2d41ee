//! Syncing a reviews emission into the subtree below its parent epic.
//!
//! A pull request is one task in the whole subtree. Where its signals put it
//! elsewhere, its task is moved, with the work that is going on in it; only when
//! every task is in its place are others removed.

use vstd::prelude::*;

use crate::feed::entries;
use crate::feed::entries::{EntryView, FeedItemWithTarget, SyncMode};
use crate::feed::ingest::index;
use crate::feed::ingest::index::{Index, IndexView};
use crate::feed::ingest::roles;
use crate::feed::ingest::roles::{RoleSubEpics, RolesView};
use crate::feed::ingest::routing as placing;
use crate::feed::ingest::routing::{GroupView, RepoGroup, RoutedEntries, RoutedView};
use crate::feed::routing;
use crate::feed::store;
use crate::feed::store::{
    FeedSyncOutcome, OutcomeView, StoreAction, StoreActionView, StoreAnswer, SyncStep, SyncStepView,
};
use crate::models::EpicId;
use crate::text;

verus! {

/// The entries that ask for a review by the user.
pub open spec fn reviewable(entries: Seq<EntryView>) -> Seq<EntryView>
    decreases entries.len(),
{
    if entries.len() == 0 {
        Seq::empty()
    } else {
        let before = reviewable(entries.drop_last());
        if routing::excluded(entries.last().item.signals) {
            before
        } else {
            before.push(entries.last())
        }
    }
}

fn keep_reviewable(entries: &Vec<FeedItemWithTarget>) -> (r: Vec<FeedItemWithTarget>)
    ensures
        entries::entry_views(r@) == reviewable(entries::entry_views(entries@)),
{
    let ghost views = entries::entry_views(entries@);
    let mut r: Vec<FeedItemWithTarget> = Vec::new();
    let mut i: usize = 0;
    proof {
        assert(views.take(0) =~= Seq::empty());
        assert(entries::entry_views(r@) =~= Seq::empty());
    }
    while i < entries.len()
        invariant
            i <= entries.len(),
            views == entries::entry_views(entries@),
            entries::entry_views(r@) == reviewable(views.take(i as int)),
        decreases entries.len() - i,
    {
        proof {
            assert(views.take(i + 1).drop_last() =~= views.take(i as int));
            assert(views.take(i + 1).last() == entries@[i as int]@);
        }
        if !routing::excluded_from_reviews(entries[i].item.signals.as_slice()) {
            let ghost before = r@;
            let entry: FeedItemWithTarget = entries[i].copied();
            r.push(entry);
            assert(entries::entry_views(r@) =~= entries::entry_views(before).push(entry@));
        }
        i += 1;
    }
    assert(views.take(i as int) =~= views);
    r
}

/// The epics, each once, in the order in which they first come.
pub open spec fn distinct(ids: Seq<EpicId>) -> Seq<EpicId>
    decreases ids.len(),
{
    if ids.len() == 0 {
        Seq::empty()
    } else {
        let before = distinct(ids.drop_last());
        if before.contains(ids.last()) {
            before
        } else {
            before.push(ids.last())
        }
    }
}

fn holds(ids: &Vec<EpicId>, id: EpicId) -> (r: bool)
    ensures
        r == ids@.contains(id),
{
    let mut i: usize = 0;
    while i < ids.len()
        invariant
            i <= ids.len(),
            forall|j: int| 0 <= j < i ==> ids@[j] != id,
        decreases ids.len() - i,
    {
        if ids[i] == id {
            return true;
        }
        i += 1;
    }
    false
}

fn without_repeats(ids: &Vec<EpicId>) -> (r: Vec<EpicId>)
    ensures
        r@ == distinct(ids@),
{
    let mut r: Vec<EpicId> = Vec::new();
    let mut i: usize = 0;
    assert(ids@.take(0) =~= Seq::empty());
    while i < ids.len()
        invariant
            i <= ids.len(),
            r@ == distinct(ids@.take(i as int)),
        decreases ids.len() - i,
    {
        proof {
            assert(ids@.take(i + 1).drop_last() =~= ids@.take(i as int));
            assert(ids@.take(i + 1).last() == ids@[i as int]);
        }
        if !holds(&r, ids[i]) {
            r.push(ids[i]);
        }
        i += 1;
    }
    assert(ids@.take(i as int) =~= ids@);
    r
}

/// The entries that go to an epic.
pub open spec fn bound_for(entries: Seq<EntryView>, targets: Seq<EpicId>, id: EpicId) -> Seq<EntryView>
    decreases entries.len(),
{
    if entries.len() == 0 {
        Seq::empty()
    } else {
        let before = bound_for(entries.drop_last(), targets, id);
        if targets[entries.len() - 1] == id {
            before.push(entries.last())
        } else {
            before
        }
    }
}

fn entries_for(entries: &Vec<FeedItemWithTarget>, targets: &Vec<EpicId>, id: EpicId) -> (r: Vec<
    FeedItemWithTarget,
>)
    requires
        targets@.len() == entries@.len(),
    ensures
        entries::entry_views(r@) == bound_for(entries::entry_views(entries@), targets@, id),
{
    let ghost views = entries::entry_views(entries@);
    let mut r: Vec<FeedItemWithTarget> = Vec::new();
    let mut i: usize = 0;
    proof {
        assert(views.take(0) =~= Seq::empty());
        assert(entries::entry_views(r@) =~= Seq::empty());
    }
    while i < entries.len()
        invariant
            i <= entries.len(),
            targets@.len() == entries@.len(),
            views == entries::entry_views(entries@),
            entries::entry_views(r@) == bound_for(views.take(i as int), targets@, id),
        decreases entries.len() - i,
    {
        proof {
            assert(views.take(i + 1).drop_last() =~= views.take(i as int));
            assert(views.take(i + 1).last() == entries@[i as int]@);
        }
        if targets[i] == id {
            let ghost before = r@;
            let entry: FeedItemWithTarget = entries[i].copied();
            r.push(entry);
            assert(entries::entry_views(r@) =~= entries::entry_views(before).push(entry@));
        }
        i += 1;
    }
    assert(views.take(i as int) =~= views);
    r
}

/// Writing entries into an epic: as all there is, or on top of what is there.
pub open spec fn written(epic: EpicId, entries: Seq<EntryView>, mode: SyncMode) -> StoreActionView {
    match mode {
        SyncMode::Reconcile => StoreActionView::Upsert { epic, entries },
        SyncMode::Additive => StoreActionView::Merge { epic, entries },
    }
}

pub(crate) fn write(epic: EpicId, entries: Vec<FeedItemWithTarget>, mode: SyncMode) -> (r: StoreAction)
    ensures
        r@ == written(epic, entries::entry_views(entries@), mode),
{
    if mode.removes_absent() {
        StoreAction::Upsert { epic, entries }
    } else {
        StoreAction::Merge { epic, entries }
    }
}

/// Writing the entries into their epics.
pub open spec fn writes(entries: Seq<EntryView>, targets: Seq<EpicId>, mode: SyncMode) -> Seq<
    StoreActionView,
> {
    distinct(targets).map_values(
        |id: EpicId| written(id, bound_for(entries, targets, id), mode),
    )
}

/// Removing the tasks that the emission does not name: below the parent, then
/// below each role, where the groups are; and whatever the parent holds itself.
pub open spec fn removals(parent: EpicId, roles: Seq<EpicId>, keep: Seq<Seq<char>>) -> Seq<
    StoreActionView,
> {
    (seq![StoreActionView::DeleteStale { root: parent, keep }] + roles.map_values(
        |id: EpicId| StoreActionView::DeleteStale { root: id, keep },
    )).push(StoreActionView::Upsert { epic: parent, entries: Seq::empty() })
}

/// Working out the epics' status anew.
pub open spec fn recalculations(ids: Seq<EpicId>) -> Seq<StoreActionView> {
    ids.map_values(|id: EpicId| StoreActionView::Recalculate(id))
}

/// The groups that a sync has to do with: those that it used, and those that were
/// there.
pub open spec fn groups_at_hand(used: Seq<GroupView>, found: Seq<EpicId>) -> Seq<EpicId> {
    distinct(used.map_values(|g: GroupView| g.id) + found)
}

/// What is left to do once every entry has its place.
pub open spec fn closing(
    parent: EpicId,
    to: RolesView,
    groups: Seq<EpicId>,
    entries: Seq<EntryView>,
    targets: Seq<EpicId>,
    mode: SyncMode,
) -> Seq<StoreActionView> {
    writes(entries, targets, mode) + (match mode {
        SyncMode::Reconcile => removals(parent, to.ids(), store::names_of(entries)),
        SyncMode::Additive => Seq::empty(),
    }) + recalculations(groups + to.ids() + seq![parent])
}

/// Doing the actions one after the other, by the answers from index `at` on. One
/// that fails is left at that; what the others removed is noted.
pub open spec fn performed(
    actions: Seq<StoreActionView>,
    sofar: OutcomeView,
    h: Seq<StoreAnswer>,
    at: int,
) -> SyncStepView<OutcomeView>
    decreases actions.len(),
{
    if actions.len() == 0 {
        SyncStepView::Done(sofar, at)
    } else if h.len() <= at {
        SyncStepView::Ask(actions[0])
    } else {
        performed(
            actions.skip(1),
            OutcomeView {
                affected_epics: sofar.affected_epics,
                removed: sofar.removed + h[at].gone(),
            },
            h,
            at + 1,
        )
    }
}

/// The actions as values.
pub open spec fn action_views(actions: Seq<StoreAction>) -> Seq<StoreActionView> {
    actions.map_values(|a: StoreAction| a@)
}

fn perform(
    plan: Vec<StoreAction>,
    first: FeedSyncOutcome,
    answers: &Vec<StoreAnswer>,
    start: usize,
) -> (r: SyncStep<FeedSyncOutcome>)
    requires
        start <= answers@.len(),
    ensures
        r@ == performed(action_views(plan@), first@, answers@, start as int),
        r@ matches SyncStepView::Done(_, used) ==> start <= used <= answers@.len(),
{
    let ghost views = action_views(plan@);
    let mut actions: Vec<StoreAction> = plan;
    let mut sofar: FeedSyncOutcome = first;
    let mut at: usize = start;
    let mut i: usize = 0;
    assert(views.skip(0) =~= views);
    while i < actions.len()
        invariant
            i <= actions.len(),
            start <= at <= answers@.len(),
            views == action_views(plan@),
            actions@ == plan@,
            performed(views, first@, answers@, start as int) == performed(
                views.skip(i as int),
                sofar@,
                answers@,
                at as int,
            ),
        decreases actions.len() - i,
    {
        proof {
            assert(views.skip(i as int)[0] == actions@[i as int]@);
            assert(views.skip(i as int).skip(1) =~= views.skip(i + 1));
        }
        if answers.len() <= at {
            return SyncStep::Ask(actions.remove(i));
        }
        store::note_removed(&answers[at], &mut sofar.removed);
        at += 1;
        i += 1;
    }
    SyncStep::Done(sofar, at)
}

/// What a sync knows once every entry has its place.
pub struct Opened {
    pub to: RolesView,
    pub found: IndexView,
    pub routed: RoutedView,
}

/// Finding the epics, the tasks and the places of the entries, and moving the
/// tasks, by the answers.
pub open spec fn opened(parent: EpicId, entries: Seq<EntryView>, h: Seq<StoreAnswer>) -> SyncStepView<
    Opened,
> {
    match roles::roles_ensured(parent, h, 0) {
        SyncStepView::Ask(action) => SyncStepView::Ask(action),
        SyncStepView::Failed(why) => SyncStepView::Failed(why),
        SyncStepView::Done(to, at) => match index::indexed(parent, to.ids(), h, at) {
            SyncStepView::Ask(action) => SyncStepView::Ask(action),
            SyncStepView::Failed(why) => SyncStepView::Failed(why),
            SyncStepView::Done(found, at) => match placing::routed(
                entries,
                RoutedView { targets: Seq::empty(), groups: Seq::empty() },
                to,
                found.known,
                h,
                at,
            ) {
                SyncStepView::Ask(action) => SyncStepView::Ask(action),
                SyncStepView::Failed(why) => SyncStepView::Failed(why),
                SyncStepView::Done(routed, at) => SyncStepView::Done(
                    Opened { to, found, routed },
                    at,
                ),
            },
        },
    }
}

impl Opened {
    /// The groups that the sync has to do with.
    pub open spec fn groups(self) -> Seq<EpicId> {
        groups_at_hand(self.routed.groups, self.found.groups)
    }

    /// What is left to do.
    pub open spec fn closing(self, parent: EpicId, entries: Seq<EntryView>, mode: SyncMode) -> Seq<
        StoreActionView,
    > {
        closing(parent, self.to, self.groups(), entries, self.routed.targets, mode)
    }

    /// The epics whose content may have changed.
    pub open spec fn affected(self, parent: EpicId) -> Seq<EpicId> {
        seq![parent] + self.to.ids() + self.groups()
    }
}

/// A sync of a reviews emission, by the answers so far.
pub open spec fn role_routed(
    parent: EpicId,
    entries: Seq<EntryView>,
    mode: SyncMode,
    h: Seq<StoreAnswer>,
) -> SyncStepView<OutcomeView> {
    let kept = reviewable(entries);
    match opened(parent, kept, h) {
        SyncStepView::Ask(action) => SyncStepView::Ask(action),
        SyncStepView::Failed(why) => SyncStepView::Failed(why),
        SyncStepView::Done(o, at) => performed(
            o.closing(parent, kept, mode),
            OutcomeView { affected_epics: o.affected(parent), removed: Seq::empty() },
            h,
            at,
        ),
    }
}

fn upsert_role_groups(entries: &Vec<FeedItemWithTarget>, targets: &Vec<EpicId>, mode: SyncMode) -> (r:
    Vec<StoreAction>)
    requires
        targets@.len() == entries@.len(),
    ensures
        action_views(r@) == writes(entries::entry_views(entries@), targets@, mode),
{
    let ghost views = entries::entry_views(entries@);
    let ids: Vec<EpicId> = without_repeats(targets);
    let mut r: Vec<StoreAction> = Vec::new();
    let mut i: usize = 0;
    while i < ids.len()
        invariant
            i <= ids.len(),
            targets@.len() == entries@.len(),
            views == entries::entry_views(entries@),
            r@.len() == i,
            forall|j: int|
                0 <= j < i ==> (#[trigger] r@[j])@ == written(
                    ids@[j],
                    bound_for(views, targets@, ids@[j]),
                    mode,
                ),
        decreases ids.len() - i,
    {
        r.push(write(ids[i], entries_for(entries, targets, ids[i]), mode));
        i += 1;
    }
    assert(action_views(r@) =~= writes(views, targets@, mode));
    r
}

fn names(entries: &Vec<FeedItemWithTarget>) -> (r: Vec<String>)
    ensures
        text::texts(r@) == store::names_of(entries::entry_views(entries@)),
{
    let mut r: Vec<String> = Vec::new();
    let mut i: usize = 0;
    while i < entries.len()
        invariant
            i <= entries.len(),
            r@.len() == i,
            forall|j: int| 0 <= j < i ==> (#[trigger] r@[j])@ == entries@[j].item.external_id@,
        decreases entries.len() - i,
    {
        r.push(entries[i].item.external_id.clone());
        i += 1;
    }
    assert(text::texts(r@) =~= store::names_of(entries::entry_views(entries@)));
    r
}

fn delete_stale_subtree(parent: EpicId, roles: &Vec<EpicId>, keep: &Vec<String>) -> (r: Vec<StoreAction>)
    ensures
        action_views(r@) == removals(parent, roles@, text::texts(keep@)),
{
    let ghost kept = text::texts(keep@);
    let mut r: Vec<StoreAction> = Vec::new();
    r.push(StoreAction::DeleteStale { root: parent, keep: entries::copied_texts(keep) });
    let mut i: usize = 0;
    while i < roles.len()
        invariant
            i <= roles.len(),
            kept == text::texts(keep@),
            r@.len() == i + 1,
            r@[0]@ == (StoreActionView::DeleteStale { root: parent, keep: kept }),
            forall|j: int|
                0 <= j < i ==> (#[trigger] r@[j + 1])@ == (StoreActionView::DeleteStale {
                    root: roles@[j],
                    keep: kept,
                }),
        decreases roles.len() - i,
    {
        let ghost before = r@;
        r.push(StoreAction::DeleteStale { root: roles[i], keep: entries::copied_texts(keep) });
        assert forall|j: int| 0 <= j < i + 1 implies (#[trigger] r@[j + 1])@ == (
        StoreActionView::DeleteStale { root: roles@[j], keep: kept }) by {
            if j < i {
                assert(r@[j + 1] == before[j + 1]);
            }
        }
        i += 1;
    }
    let ghost before = r@;
    let none: Vec<FeedItemWithTarget> = Vec::new();
    assert(entries::entry_views(none@) =~= Seq::empty());
    r.push(StoreAction::Upsert { epic: parent, entries: none });
    proof {
        let expected = removals(parent, roles@, kept);
        assert forall|j: int| 0 <= j < r@.len() implies action_views(r@)[j] == #[trigger] expected[j] by {
            if 0 < j < r@.len() - 1 {
                assert(r@[j] == before[(j - 1) + 1]);
            }
        }
        assert(action_views(r@) =~= expected);
    }
    r
}

fn recalculate_subtree(ids: &Vec<EpicId>) -> (r: Vec<StoreAction>)
    ensures
        action_views(r@) == recalculations(ids@),
{
    let mut r: Vec<StoreAction> = Vec::new();
    let mut i: usize = 0;
    while i < ids.len()
        invariant
            i <= ids.len(),
            r@.len() == i,
            forall|j: int|
                0 <= j < i ==> (#[trigger] r@[j])@ == StoreActionView::Recalculate(ids@[j]),
        decreases ids.len() - i,
    {
        r.push(StoreAction::Recalculate(ids[i]));
        i += 1;
    }
    assert(action_views(r@) =~= recalculations(ids@));
    r
}

fn all_groups(used: &Vec<RepoGroup>, found: &Vec<EpicId>) -> (r: Vec<EpicId>)
    ensures
        r@ == groups_at_hand(placing::group_views(used@), found@),
{
    let ghost views = placing::group_views(used@);
    let mut ids: Vec<EpicId> = Vec::new();
    let mut i: usize = 0;
    while i < used.len()
        invariant
            i <= used.len(),
            ids@.len() == i,
            forall|j: int| 0 <= j < i ==> ids@[j] == (#[trigger] used@[j]).id,
        decreases used.len() - i,
    {
        ids.push(used[i].id);
        i += 1;
    }
    assert(ids@ =~= views.map_values(|g: GroupView| g.id));
    let mut rest: Vec<EpicId> = copied_ids(found);
    ids.append(&mut rest);
    without_repeats(&ids)
}

fn copied_ids(ids: &Vec<EpicId>) -> (r: Vec<EpicId>)
    ensures
        r@ == ids@,
{
    let mut r: Vec<EpicId> = Vec::new();
    let mut i: usize = 0;
    while i < ids.len()
        invariant
            i <= ids.len(),
            r@ == ids@.take(i as int),
        decreases ids.len() - i,
    {
        r.push(ids[i]);
        i += 1;
        assert(ids@.take(i as int) =~= ids@.take(i - 1).push(ids@[i - 1]));
    }
    assert(ids@.take(i as int) =~= ids@);
    r
}

fn close(
    parent: EpicId,
    roles: &Vec<EpicId>,
    groups: &Vec<EpicId>,
    entries: &Vec<FeedItemWithTarget>,
    targets: &Vec<EpicId>,
    mode: SyncMode,
) -> (r: Vec<StoreAction>)
    requires
        targets@.len() == entries@.len(),
    ensures
        forall|to: RolesView|
            #![trigger to.ids()]
            to.ids() == roles@ ==> action_views(r@) == closing(
                parent,
                to,
                groups@,
                entries::entry_views(entries@),
                targets@,
                mode,
            ),
{
    let ghost views = entries::entry_views(entries@);
    let mut r: Vec<StoreAction> = upsert_role_groups(entries, targets, mode);
    let ghost first = action_views(r@);
    let ghost mut second = Seq::<StoreActionView>::empty();
    if mode.removes_absent() {
        let keep: Vec<String> = names(entries);
        let mut more: Vec<StoreAction> = delete_stale_subtree(parent, roles, &keep);
        let ghost added = more@;
        r.append(&mut more);
        proof {
            second = action_views(added);
            assert(action_views(r@) =~= first + second);
        }
    }
    assert(action_views(r@) =~= first + second);
    let ghost before = r@;
    let mut ids: Vec<EpicId> = copied_ids(groups);
    let mut rest: Vec<EpicId> = copied_ids(roles);
    ids.append(&mut rest);
    ids.push(parent);
    assert(ids@ =~= groups@ + roles@ + seq![parent]);
    let mut last: Vec<StoreAction> = recalculate_subtree(&ids);
    let ghost third = last@;
    r.append(&mut last);
    assert(action_views(r@) =~= action_views(before) + action_views(third));
    r
}

/// Sync a reviews emission. Whoever calls does what it asks for, adds the answer,
/// and calls again until it is done.
pub fn run_role_routed_feed_sync(
    parent: EpicId,
    entries: &Vec<FeedItemWithTarget>,
    mode: SyncMode,
    answers: &Vec<StoreAnswer>,
) -> (r: SyncStep<FeedSyncOutcome>)
    ensures
        r@ == role_routed(parent, entries::entry_views(entries@), mode, answers@),
{
    let kept: Vec<FeedItemWithTarget> = keep_reviewable(entries);
    let (to, at): (RoleSubEpics<'_>, usize) = match roles::ensure_role_sub_epics(parent, answers, 0) {
        SyncStep::Ask(action) => return SyncStep::Ask(action),
        SyncStep::Failed(why) => return SyncStep::Failed(why),
        SyncStep::Done(to, at) => (to, at),
    };
    let role_ids: Vec<EpicId> = to.ids();
    let (found, at): (Index, usize) = match index::build_existing_task_index(
        parent,
        &role_ids,
        answers,
        at,
    ) {
        SyncStep::Ask(action) => return SyncStep::Ask(action),
        SyncStep::Failed(why) => return SyncStep::Failed(why),
        SyncStep::Done(found, at) => (found, at),
    };
    let ghost before = at;
    let (routed, at): (RoutedEntries, usize) = match placing::route_and_group_entries(
        &kept,
        &to,
        &found,
        answers,
        at,
    ) {
        SyncStep::Ask(action) => return SyncStep::Ask(action),
        SyncStep::Failed(why) => return SyncStep::Failed(why),
        SyncStep::Done(routed, at) => (routed, at),
    };
    proof {
        placing::lemma_every_entry_is_placed(
            entries::entry_views(kept@),
            RoutedView { targets: Seq::empty(), groups: Seq::empty() },
            to@,
            found@.known,
            answers@,
            before as int,
        );
        assert(entries::entry_views(kept@).len() == kept@.len());
    }
    let mut groups: Vec<EpicId> = all_groups(&routed.groups, &found.groups);
    let actions: Vec<StoreAction> = close(
        parent,
        &role_ids,
        &groups,
        &kept,
        &routed.targets,
        mode,
    );
    let mut affected_epics: Vec<EpicId> = vec![parent, to.my, to.team, to.bots];
    let ghost at_hand = groups@;
    affected_epics.append(&mut groups);
    let outcome: FeedSyncOutcome = FeedSyncOutcome { affected_epics, removed: Vec::new() };
    proof {
        assert(to@.ids() == role_ids@);
        assert(outcome.affected_epics@ =~= seq![parent] + to@.ids() + at_hand);
        assert(outcome@.removed =~= Seq::empty());
    }
    perform(actions, outcome, answers, at)
}

proof fn lemma_opening_settled(
    parent: EpicId,
    entries: Seq<EntryView>,
    h: Seq<StoreAnswer>,
    g: Seq<StoreAnswer>,
)
    ensures
        opened(parent, entries, h) matches SyncStepView::Done(_, used) ==> 0 <= used <= h.len() && (
        store::agree(h, g, used) ==> opened(parent, entries, g) == opened(parent, entries, h)),
        opened(parent, entries, h) matches SyncStepView::Ask(a) ==> !a.removes() && !a.writes(),
{
    roles::lemma_roles_settled(parent, h, g, 0);
    match roles::roles_ensured(parent, h, 0) {
        SyncStepView::Done(to, at) => {
            index::lemma_index_settled(parent, to.ids(), h, g, at);
            match index::indexed(parent, to.ids(), h, at) {
                SyncStepView::Done(found, at) => {
                    placing::lemma_routing_settled(
                        entries,
                        RoutedView { targets: Seq::empty(), groups: Seq::empty() },
                        to,
                        found.known,
                        h,
                        g,
                        at,
                    );
                },
                _ => {},
            }
        },
        _ => {},
    }
}

proof fn lemma_performing_asks(
    actions: Seq<StoreActionView>,
    sofar: OutcomeView,
    h: Seq<StoreAnswer>,
    at: int,
)
    ensures
        performed(actions, sofar, h, at) matches SyncStepView::Ask(a) ==> actions.contains(a),
        performed(actions, sofar, h, at) !is Failed,
        performed(actions, sofar, h, at) matches SyncStepView::Done(done, _)
            ==> done.affected_epics == sofar.affected_epics,
    decreases actions.len(),
{
    if actions.len() > 0 && at < h.len() {
        let rest = actions.skip(1);
        lemma_performing_asks(
            rest,
            OutcomeView {
                affected_epics: sofar.affected_epics,
                removed: sofar.removed + h[at].gone(),
            },
            h,
            at + 1,
        );
        match performed(actions, sofar, h, at) {
            SyncStepView::Ask(a) => {
                let i = choose|i: int| 0 <= i < rest.len() && rest[i] == a;
                assert(actions[i + 1] == a);
            },
            _ => {},
        }
    } else if actions.len() > 0 {
        assert(actions.contains(actions[0]));
    }
}

/// Each epic comes once, and none is lost.
pub proof fn lemma_distinct(ids: Seq<EpicId>)
    ensures
        distinct(ids).no_duplicates(),
        forall|id: EpicId| #[trigger] distinct(ids).contains(id) == ids.contains(id),
    decreases ids.len(),
{
    if ids.len() > 0 {
        let before = ids.drop_last();
        let last = ids.last();
        lemma_distinct(before);
        let sofar = distinct(before);
        assert forall|id: EpicId| #[trigger] distinct(ids).contains(id) == ids.contains(id) by {
            assert(sofar.contains(id) == before.contains(id));
            assert(ids.contains(id) == (before.contains(id) || id == last)) by {
                if ids.contains(id) {
                    let i = choose|i: int| 0 <= i < ids.len() && ids[i] == id;
                    if i < before.len() {
                        assert(before[i] == id);
                    }
                }
                if before.contains(id) {
                    let i = choose|i: int| 0 <= i < before.len() && before[i] == id;
                    assert(ids[i] == id);
                }
                assert(ids[ids.len() - 1] == last);
            }
            if !sofar.contains(last) {
                let longer = sofar.push(last);
                if sofar.contains(id) {
                    let i = choose|i: int| 0 <= i < sofar.len() && sofar[i] == id;
                    assert(longer[i] == id);
                }
                assert(longer[sofar.len() as int] == last);
                if longer.contains(id) && id != last {
                    let i = choose|i: int| 0 <= i < longer.len() && longer[i] == id;
                    assert(sofar[i] == id);
                }
            }
        }
    }
}

proof fn lemma_bound_for(entries: Seq<EntryView>, targets: Seq<EpicId>, id: EpicId)
    requires
        entries.len() <= targets.len(),
    ensures
        forall|i: int|
            0 <= i < entries.len() && targets[i] == id ==> bound_for(entries, targets, id).contains(
                #[trigger] entries[i],
            ),
        forall|j: int|
            0 <= j < bound_for(entries, targets, id).len() ==> entries.contains(
                #[trigger] bound_for(entries, targets, id)[j],
            ),
    decreases entries.len(),
{
    if entries.len() > 0 {
        let before = entries.drop_last();
        let sofar = bound_for(before, targets, id);
        let all = bound_for(entries, targets, id);
        lemma_bound_for(before, targets, id);
        assert forall|i: int| 0 <= i < entries.len() && targets[i] == id implies all.contains(
            #[trigger] entries[i],
        ) by {
            if i < before.len() {
                assert(before[i] == entries[i]);
                let j = choose|j: int| 0 <= j < sofar.len() && sofar[j] == entries[i];
                assert(all[j] == entries[i]);
            } else {
                assert(all[sofar.len() as int] == entries[i]);
            }
        }
        assert forall|j: int| 0 <= j < all.len() implies entries.contains(#[trigger] all[j]) by {
            if j < sofar.len() {
                assert(all[j] == sofar[j]);
                let i = choose|i: int| 0 <= i < before.len() && before[i] == sofar[j];
                assert(entries[i] == all[j]);
            } else {
                assert(entries[entries.len() - 1] == all[j]);
            }
        }
    }
}

proof fn lemma_reviewable(entries: Seq<EntryView>)
    ensures
        forall|i: int|
            0 <= i < reviewable(entries).len() ==> entries.contains(
                #[trigger] reviewable(entries)[i],
            ) && !routing::excluded(reviewable(entries)[i].item.signals),
        forall|i: int|
            0 <= i < entries.len() && !routing::excluded((#[trigger] entries[i]).item.signals)
                ==> reviewable(entries).contains(entries[i]),
    decreases entries.len(),
{
    if entries.len() > 0 {
        let before = entries.drop_last();
        let sofar = reviewable(before);
        let all = reviewable(entries);
        lemma_reviewable(before);
        assert forall|i: int| 0 <= i < all.len() implies entries.contains(#[trigger] all[i])
            && !routing::excluded(all[i].item.signals) by {
            if i < sofar.len() {
                assert(all[i] == sofar[i]);
                let j = choose|j: int| 0 <= j < before.len() && before[j] == sofar[i];
                assert(entries[j] == all[i]);
            } else {
                assert(entries[entries.len() - 1] == all[i]);
            }
        }
        assert forall|i: int|
            0 <= i < entries.len() && !routing::excluded(
                (#[trigger] entries[i]).item.signals,
            ) implies all.contains(entries[i]) by {
            if i < before.len() {
                assert(before[i] == entries[i]);
                let j = choose|j: int| 0 <= j < sofar.len() && sofar[j] == entries[i];
                assert(all[j] == entries[i]);
            } else {
                assert(all[sofar.len() as int] == entries[i]);
            }
        }
    }
}

/// What an action of the closing can be.
proof fn lemma_closing_asks(
    parent: EpicId,
    to: RolesView,
    groups: Seq<EpicId>,
    entries: Seq<EntryView>,
    targets: Seq<EpicId>,
    mode: SyncMode,
    a: StoreActionView,
)
    requires
        closing(parent, to, groups, entries, targets, mode).contains(a),
    ensures
        !a.moves(),
        ({
            ||| exists|id: EpicId| #[trigger]
                targets.contains(id) && a == written(id, bound_for(entries, targets, id), mode)
            ||| mode == SyncMode::Reconcile && (a matches StoreActionView::DeleteStale { keep, .. }
                && keep == store::names_of(entries))
            ||| mode == SyncMode::Reconcile && a == (StoreActionView::Upsert {
                epic: parent,
                entries: Seq::empty(),
            })
            ||| a is Recalculate
        }),
{
    let first = writes(entries, targets, mode);
    let second = match mode {
        SyncMode::Reconcile => removals(parent, to.ids(), store::names_of(entries)),
        SyncMode::Additive => Seq::empty(),
    };
    let third = recalculations(groups + to.ids() + seq![parent]);
    let all = closing(parent, to, groups, entries, targets, mode);
    let i = choose|i: int| 0 <= i < all.len() && all[i] == a;
    if i < first.len() {
        assert(all[i] == first[i]);
        let id = distinct(targets)[i];
        lemma_distinct(targets);
        assert(distinct(targets).contains(id));
        assert(targets.contains(id));
        assert(a == written(id, bound_for(entries, targets, id), mode));
    } else if i < first.len() + second.len() {
        assert(all[i] == second[i - first.len()]);
    } else {
        assert(all[i] == third[i - first.len() - second.len()]);
    }
}

/// No task is moved any more once one may have been removed: a task that is on
/// its way to another epic is never taken for one that is gone.
pub proof fn moves_come_before_removals(
    parent: EpicId,
    entries: Seq<EntryView>,
    mode: SyncMode,
    h: Seq<StoreAnswer>,
    k: int,
)
    requires
        0 <= k <= h.len(),
        role_routed(parent, entries, mode, h.take(k)) matches SyncStepView::Ask(a) && a.removes(),
    ensures
        role_routed(parent, entries, mode, h) matches SyncStepView::Ask(a) ==> !a.moves(),
{
    let kept = reviewable(entries);
    let g = h.take(k);
    lemma_opening_settled(parent, kept, g, h);
    match opened(parent, kept, g) {
        SyncStepView::Done(o, at) => {
            assert(store::agree(g, h, at));
            let sofar = OutcomeView { affected_epics: o.affected(parent), removed: Seq::empty() };
            lemma_performing_asks(o.closing(parent, kept, mode), sofar, h, at);
            match role_routed(parent, entries, mode, h) {
                SyncStepView::Ask(a) => {
                    lemma_closing_asks(
                        parent,
                        o.to,
                        o.groups(),
                        kept,
                        o.routed.targets,
                        mode,
                        a,
                    );
                },
                _ => {},
            }
        },
        _ => {},
    }
}

/// A sync that is to remove nothing asks for no removal, whatever the store says.
pub proof fn additive_reviews_sync_removes_nothing(
    parent: EpicId,
    entries: Seq<EntryView>,
    h: Seq<StoreAnswer>,
)
    ensures
        role_routed(parent, entries, SyncMode::Additive, h) matches SyncStepView::Ask(a)
            ==> !a.removes(),
{
    let kept = reviewable(entries);
    lemma_opening_settled(parent, kept, h, h);
    match opened(parent, kept, h) {
        SyncStepView::Done(o, at) => {
            let sofar = OutcomeView { affected_epics: o.affected(parent), removed: Seq::empty() };
            lemma_performing_asks(o.closing(parent, kept, SyncMode::Additive), sofar, h, at);
            match role_routed(parent, entries, SyncMode::Additive, h) {
                SyncStepView::Ask(a) => {
                    lemma_closing_asks(
                        parent,
                        o.to,
                        o.groups(),
                        kept,
                        o.routed.targets,
                        SyncMode::Additive,
                        a,
                    );
                },
                _ => {},
            }
        },
        _ => {},
    }
}

/// An item that asks for no review by the user is never written, and its name keeps no
/// task from being removed; and what is written is as it was emitted, with its own
/// path and branch.
pub proof fn only_review_work_is_written(
    parent: EpicId,
    entries: Seq<EntryView>,
    mode: SyncMode,
    h: Seq<StoreAnswer>,
    entry: EntryView,
    name: Seq<char>,
)
    ensures
        role_routed(parent, entries, mode, h) matches SyncStepView::Ask(
            StoreActionView::Upsert { entries: es, .. },
        ) && es.contains(entry) ==> entries.contains(entry) && !routing::excluded(
            entry.item.signals,
        ),
        role_routed(parent, entries, mode, h) matches SyncStepView::Ask(
            StoreActionView::Merge { entries: es, .. },
        ) && es.contains(entry) ==> entries.contains(entry) && !routing::excluded(
            entry.item.signals,
        ),
        role_routed(parent, entries, mode, h) matches SyncStepView::Ask(
            StoreActionView::DeleteStale { keep, .. },
        ) && keep.contains(name) ==> exists|e: EntryView| #[trigger]
            entries.contains(e) && e.item.external_id == name && !routing::excluded(e.item.signals),
{
    let kept = reviewable(entries);
    lemma_opening_settled(parent, kept, h, h);
    lemma_reviewable(entries);
    match opened(parent, kept, h) {
        SyncStepView::Done(o, at) => {
            let sofar = OutcomeView { affected_epics: o.affected(parent), removed: Seq::empty() };
            lemma_performing_asks(o.closing(parent, kept, mode), sofar, h, at);
            lemma_targets(parent, kept, h);
            match role_routed(parent, entries, mode, h) {
                SyncStepView::Ask(a) => {
                    lemma_closing_asks(
                        parent,
                        o.to,
                        o.groups(),
                        kept,
                        o.routed.targets,
                        mode,
                        a,
                    );
                    if exists|id: EpicId| #[trigger]
                        o.routed.targets.contains(id) && a == written(
                            id,
                            bound_for(kept, o.routed.targets, id),
                            mode,
                        ) {
                        let id = choose|id: EpicId| #[trigger]
                            o.routed.targets.contains(id) && a == written(
                                id,
                                bound_for(kept, o.routed.targets, id),
                                mode,
                            );
                        lemma_bound_for(kept, o.routed.targets, id);
                        let es = bound_for(kept, o.routed.targets, id);
                        if es.contains(entry) {
                            let j = choose|j: int| 0 <= j < es.len() && es[j] == entry;
                            assert(kept.contains(es[j]));
                            let i = choose|i: int| 0 <= i < kept.len() && kept[i] == entry;
                            assert(entries.contains(kept[i]));
                        }
                    } else if a is DeleteStale {
                        let keep = store::names_of(kept);
                        if keep.contains(name) {
                            let i = choose|i: int| 0 <= i < keep.len() && keep[i] == name;
                            assert(kept[i].item.external_id == name);
                            assert(entries.contains(kept[i]));
                        }
                    }
                },
                _ => {},
            }
        },
        _ => {},
    }
}

proof fn lemma_targets(parent: EpicId, entries: Seq<EntryView>, h: Seq<StoreAnswer>)
    ensures
        opened(parent, entries, h) matches SyncStepView::Done(o, _) ==> o.routed.targets.len()
            == entries.len(),
{
    match roles::roles_ensured(parent, h, 0) {
        SyncStepView::Done(to, at) => {
            match index::indexed(parent, to.ids(), h, at) {
                SyncStepView::Done(found, at) => {
                    placing::lemma_every_entry_is_placed(
                        entries,
                        RoutedView { targets: Seq::empty(), groups: Seq::empty() },
                        to,
                        found.known,
                        h,
                        at,
                    );
                },
                _ => {},
            }
        },
        _ => {},
    }
}

/// Every entry that asks for a review by the user is written, into the epic that is
/// its place.
pub proof fn every_review_is_written(
    parent: EpicId,
    entries: Seq<EntryView>,
    mode: SyncMode,
    h: Seq<StoreAnswer>,
    i: int,
)
    requires
        opened(parent, reviewable(entries), h) is Done,
        0 <= i < reviewable(entries).len(),
    ensures
        ({
            let kept = reviewable(entries);
            let o = opened(parent, kept, h)->Done_0;
            let target = o.routed.targets[i];
            let es = bound_for(kept, o.routed.targets, target);
            &&& o.closing(parent, kept, mode).contains(written(target, es, mode))
            &&& es.contains(kept[i])
        }),
{
    let kept = reviewable(entries);
    let o = opened(parent, kept, h)->Done_0;
    let targets = o.routed.targets;
    lemma_targets(parent, kept, h);
    lemma_distinct(targets);
    lemma_bound_for(kept, targets, targets[i]);
    assert(targets.contains(targets[i]));
    let ids = distinct(targets);
    assert(ids.contains(targets[i]));
    let j = choose|j: int| 0 <= j < ids.len() && ids[j] == targets[i];
    let all = o.closing(parent, kept, mode);
    assert(all[j] == written(targets[i], bound_for(kept, targets, targets[i]), mode));
}

/// A task in its place survives the sync: no action that is left to do removes
/// one that the emission names, where the item of that name goes.
pub proof fn emitted_task_survives(
    parent: EpicId,
    entries: Seq<EntryView>,
    mode: SyncMode,
    h: Seq<StoreAnswer>,
    i: int,
    a: StoreActionView,
)
    requires
        opened(parent, reviewable(entries), h) is Done,
        0 <= i < reviewable(entries).len(),
        opened(parent, reviewable(entries), h)->Done_0.routed.targets[i] != parent,
        opened(parent, reviewable(entries), h)->Done_0.closing(
            parent,
            reviewable(entries),
            mode,
        ).contains(a),
    ensures
        !a.may_take(
            opened(parent, reviewable(entries), h)->Done_0.routed.targets[i],
            Some(reviewable(entries)[i].item.external_id),
        ),
{
    let kept = reviewable(entries);
    let o = opened(parent, kept, h)->Done_0;
    let targets = o.routed.targets;
    let target = targets[i];
    let name = kept[i].item.external_id;
    lemma_targets(parent, kept, h);
    lemma_closing_asks(parent, o.to, o.groups(), kept, targets, mode, a);
    lemma_bound_for(kept, targets, target);
    let es = bound_for(kept, targets, target);
    let j = choose|j: int| 0 <= j < es.len() && es[j] == kept[i];
    assert(store::names_of(es)[j] == name);
    assert(store::names_of(kept)[i] == name);
}

/// A task that the board has elsewhere than its item goes is moved there, before
/// anything is removed.
pub proof fn misplaced_task_is_moved(
    parent: EpicId,
    entries: Seq<EntryView>,
    mode: SyncMode,
    h: Seq<StoreAnswer>,
    i: int,
)
    requires
        opened(parent, reviewable(entries), h) is Done,
        0 <= i < reviewable(entries).len(),
        index::last_known(
            opened(parent, reviewable(entries), h)->Done_0.found.known,
            reviewable(entries)[i].item.external_id,
        ) matches Some(task) && task.epic_id != Some(
            opened(parent, reviewable(entries), h)->Done_0.routed.targets[i],
        ),
    ensures
        exists|k: int|
            0 <= k < opened(parent, reviewable(entries), h)->Done_1 && #[trigger] role_routed(
                parent,
                entries,
                mode,
                h.take(k),
            ) == SyncStepView::<OutcomeView>::Ask(
                StoreActionView::MoveTask {
                    task: index::last_known(
                        opened(parent, reviewable(entries), h)->Done_0.found.known,
                        reviewable(entries)[i].item.external_id,
                    )->0.id,
                    epic: opened(parent, reviewable(entries), h)->Done_0.routed.targets[i],
                },
            ),
{
    let kept = reviewable(entries);
    let nothing = RoutedView { targets: Seq::empty(), groups: Seq::empty() };
    roles::lemma_roles_settled(parent, h, h, 0);
    let to = roles::roles_ensured(parent, h, 0)->Done_0;
    let at1 = roles::roles_ensured(parent, h, 0)->Done_1;
    index::lemma_index_settled(parent, to.ids(), h, h, at1);
    let found = index::indexed(parent, to.ids(), h, at1)->Done_0;
    let at2 = index::indexed(parent, to.ids(), h, at1)->Done_1;
    let k = placing::lemma_misplaced_task_is_moved(kept, nothing, to, found.known, h, at2, i);
    let g = h.take(k);
    roles::lemma_roles_settled(parent, h, g, 0);
    index::lemma_index_settled(parent, to.ids(), h, g, at1);
    assert(store::agree(h, g, at1));
    assert(store::agree(h, g, at2));
    assert(role_routed(parent, entries, mode, g) is Ask);
}

/// The parent of the reviews gets no item: what is written into it is nothing.
pub proof fn reviews_parent_gets_no_item(
    parent: EpicId,
    entries: Seq<EntryView>,
    mode: SyncMode,
    h: Seq<StoreAnswer>,
    a: StoreActionView,
)
    requires
        opened(parent, reviewable(entries), h) is Done,
        !opened(parent, reviewable(entries), h)->Done_0.routed.targets.contains(parent),
        opened(parent, reviewable(entries), h)->Done_0.closing(
            parent,
            reviewable(entries),
            mode,
        ).contains(a),
    ensures
        a matches StoreActionView::Upsert { epic, entries: es } ==> epic == parent ==> es.len() == 0,
        a matches StoreActionView::Merge { epic, .. } ==> epic != parent,
{
    let kept = reviewable(entries);
    let o = opened(parent, kept, h)->Done_0;
    lemma_closing_asks(parent, o.to, o.groups(), kept, o.routed.targets, mode, a);
}

/// Whatever a sync wrote to is among the epics that it names in the end: the
/// parent, the roles, and the place of every entry.
pub proof fn written_epics_are_named(
    parent: EpicId,
    entries: Seq<EntryView>,
    mode: SyncMode,
    h: Seq<StoreAnswer>,
    i: int,
)
    requires
        role_routed(parent, entries, mode, h) is Done,
        0 <= i < reviewable(entries).len(),
    ensures
        opened(parent, reviewable(entries), h) is Done,
        role_routed(parent, entries, mode, h)->Done_0.affected_epics.contains(parent),
        role_routed(parent, entries, mode, h)->Done_0.affected_epics.contains(
            opened(parent, reviewable(entries), h)->Done_0.routed.targets[i],
        ),
{
    let kept = reviewable(entries);
    let nothing = RoutedView { targets: Seq::empty(), groups: Seq::empty() };
    let o = opened(parent, kept, h)->Done_0;
    let at = opened(parent, kept, h)->Done_1;
    let sofar = OutcomeView { affected_epics: o.affected(parent), removed: Seq::empty() };
    lemma_performing_asks(o.closing(parent, kept, mode), sofar, h, at);
    lemma_targets(parent, kept, h);
    let at1 = roles::roles_ensured(parent, h, 0)->Done_1;
    let at2 = index::indexed(parent, o.to.ids(), h, at1)->Done_1;
    placing::lemma_places_are_at_hand(kept, nothing, o.to, o.found.known, h, at2);
    let target = o.routed.targets[i];
    let all = o.affected(parent);
    assert(all[0] == parent);
    let used = o.routed.groups.map_values(|g: GroupView| g.id);
    lemma_distinct(used + o.found.groups);
    if o.to.ids().contains(target) {
        let j = choose|j: int| 0 <= j < o.to.ids().len() && o.to.ids()[j] == target;
        assert(all[j + 1] == target);
    } else {
        let j = choose|j: int| 0 <= j < used.len() && used[j] == target;
        assert((used + o.found.groups)[j] == target);
        assert(o.groups().contains(target));
        let n = choose|n: int| 0 <= n < o.groups().len() && o.groups()[n] == target;
        assert(all[n + 4] == target);
    }
}

/// A task that was made by hand is not the feed's to remove.
pub proof fn handmade_task_is_left_alone(a: StoreActionView, holder: EpicId)
    ensures
        !a.may_take(holder, None),
{
}

/// Every entry but those with nothing to review is synced, in the order of the emission.
pub proof fn every_review_is_synced(entries: Seq<EntryView>)
    ensures
        reviewable(entries) == entries.filter(
            |e: EntryView| !routing::excluded(e.item.signals),
        ),
    decreases entries.len(),
{
    reveal(Seq::filter);
    if entries.len() > 0 {
        every_review_is_synced(entries.drop_last());
    }
}

/// A further entry goes to its own target, behind the others there, and to no other.
pub proof fn an_entry_goes_to_its_target(
    entries: Seq<EntryView>,
    targets: Seq<EpicId>,
    more: EntryView,
    target: EpicId,
    other: EpicId,
)
    requires
        entries.len() == targets.len(),
        other != target,
    ensures
        bound_for(entries.push(more), targets.push(target), target) == bound_for(
            entries,
            targets,
            target,
        ).push(more),
        bound_for(entries.push(more), targets.push(target), other) == bound_for(
            entries,
            targets,
            other,
        ),
        bound_for(Seq::<EntryView>::empty(), Seq::<EpicId>::empty(), target).len() == 0,
{
    assert(entries.push(more).drop_last() =~= entries);
    lemma_longer_targets(entries, targets, targets.push(target), target);
    lemma_longer_targets(entries, targets, targets.push(target), other);
}

proof fn lemma_longer_targets(
    entries: Seq<EntryView>,
    targets: Seq<EpicId>,
    longer: Seq<EpicId>,
    id: EpicId,
)
    requires
        entries.len() <= targets.len(),
        entries.len() <= longer.len(),
        forall|i: int| 0 <= i < entries.len() ==> targets[i] == #[trigger] longer[i],
    ensures
        bound_for(entries, targets, id) == bound_for(entries, longer, id),
    decreases entries.len(),
{
    if entries.len() > 0 {
        lemma_longer_targets(entries.drop_last(), targets, longer, id);
    }
}

/// What an emission says replaces what is in an epic where it is all there is, and else
/// adds to it; either way all of it is written, to that epic.
pub proof fn an_epic_gets_all_its_entries(epic: EpicId, entries: Seq<EntryView>)
    ensures
        written(epic, entries, SyncMode::Reconcile) == (StoreActionView::Upsert { epic, entries }),
        written(epic, entries, SyncMode::Additive) == (StoreActionView::Merge { epic, entries }),
{
}

/// The closing writes, then removes, then works out the status of every group, of every
/// role and, last of all, of the parent. Only an emission that is all there is removes: in
/// the parent and in each role, whatever has none of the emitted names.
pub proof fn the_parent_is_worked_out_last(
    parent: EpicId,
    to: RolesView,
    groups: Seq<EpicId>,
    entries: Seq<EntryView>,
    targets: Seq<EpicId>,
    mode: SyncMode,
    id: EpicId,
)
    ensures
        ({
            let all = closing(parent, to, groups, entries, targets, mode);
            &&& all.last() == StoreActionView::Recalculate(parent)
            &&& groups.contains(id) || id == to.my || id == to.team || id == to.bots ==> exists|
                k: int,
            |
                0 <= k < all.len() - 1 && #[trigger] all[k] == StoreActionView::Recalculate(id)
            &&& mode == SyncMode::Reconcile && (id == parent || id == to.my || id == to.team || id
                == to.bots) ==> exists|k: int|
                0 <= k < all.len() && #[trigger] all[k] == (StoreActionView::DeleteStale {
                    root: id,
                    keep: store::names_of(entries),
                })
            &&& forall|j: int, k: int|
                0 <= j < k < all.len() && (#[trigger] all[j]) is Recalculate ==> (
                #[trigger] all[k]) is Recalculate
        }),
{
    let first = writes(entries, targets, mode);
    let keep = store::names_of(entries);
    let second = match mode {
        SyncMode::Reconcile => removals(parent, to.ids(), keep),
        SyncMode::Additive => Seq::empty(),
    };
    let order = groups + to.ids() + seq![parent];
    let third = recalculations(order);
    let all = closing(parent, to, groups, entries, targets, mode);
    let n = first.len() + second.len();
    assert(all.len() == n + order.len());
    assert(order.last() == parent);
    assert(all.last() == third.last());
    assert(to.ids()[0] == to.my && to.ids()[1] == to.team && to.ids()[2] == to.bots);
    if groups.contains(id) {
        let k = choose|k: int| 0 <= k < groups.len() && groups[k] == id;
        assert(order[k] == id);
        assert(all[n + k] == third[k]);
    } else if id == to.my || id == to.team || id == to.bots {
        let k: int = if id == to.my {
            0
        } else if id == to.team {
            1
        } else {
            2
        };
        assert(order[groups.len() + k] == id);
        assert(all[n + groups.len() + k] == third[groups.len() + k]);
    }
    if mode == SyncMode::Reconcile {
        let m = first.len() as int;
        assert(all[m] == second[0]);
        assert(all[m + 1] == second[1]);
        assert(all[m + 2] == second[2]);
        assert(all[m + 3] == second[3]);
    }
    assert forall|j: int, k: int|
        0 <= j < k < all.len() && (#[trigger] all[j]) is Recalculate implies (#[trigger] all[k])
        is Recalculate by {
        if k < n {
            if k < first.len() {
                assert(all[j] == first[j]);
            } else if j < first.len() {
                assert(all[j] == first[j]);
            } else {
                assert(all[j] == second[j - first.len()]);
                if mode == SyncMode::Reconcile {
                    assert(!(second[j - first.len()] is Recalculate));
                }
            }
            assert(false);
        } else {
            assert(all[k] == third[k - n]);
        }
    }
}

/// Every action of a list is done, one after the other, whatever comes of those before it,
/// and what each removed is noted, in that order.
pub proof fn every_action_is_done(
    actions: Seq<StoreActionView>,
    sofar: OutcomeView,
    h: Seq<StoreAnswer>,
    at: int,
)
    requires
        0 <= at <= h.len(),
    ensures
        h.len() - at < actions.len() ==> performed(actions, sofar, h, at) == SyncStepView::<
            OutcomeView,
        >::Ask(actions[h.len() - at]),
        h.len() - at >= actions.len() ==> (performed(actions, sofar, h, at)
            matches SyncStepView::Done(out, used) && used == at + actions.len()
            && out.affected_epics == sofar.affected_epics && (forall|r: store::RemovedView|
            #[trigger]
            out.removed.contains(r) <==> sofar.removed.contains(r) || exists|k: int|
                at <= k < at + actions.len() && (#[trigger] h[k]).gone().contains(r))),
    decreases actions.len(),
{
    if actions.len() > 0 && at < h.len() {
        let more = OutcomeView {
            affected_epics: sofar.affected_epics,
            removed: sofar.removed + h[at].gone(),
        };
        let rest = actions.skip(1);
        every_action_is_done(rest, more, h, at + 1);
        if h.len() - at < actions.len() {
            assert(rest[h.len() - at - 1] == actions[h.len() - at]);
        } else {
            let out = performed(actions, sofar, h, at)->Done_0;
            assert forall|r: store::RemovedView| #[trigger] out.removed.contains(r)
                <==> sofar.removed.contains(r) || exists|k: int|
                at <= k < at + actions.len() && (#[trigger] h[k]).gone().contains(r) by {
                lemma_in_either(sofar.removed, h[at].gone(), r);
                if more.removed.contains(r) && !sofar.removed.contains(r) {
                    assert(h[at].gone().contains(r));
                }
            }
        }
    }
}

proof fn lemma_in_either(
    a: Seq<store::RemovedView>,
    b: Seq<store::RemovedView>,
    r: store::RemovedView,
)
    ensures
        (a + b).contains(r) <==> a.contains(r) || b.contains(r),
{
    let all = a + b;
    if a.contains(r) {
        let i = choose|i: int| 0 <= i < a.len() && a[i] == r;
        assert(all[i] == r);
    }
    if b.contains(r) {
        let i = choose|i: int| 0 <= i < b.len() && b[i] == r;
        assert(all[a.len() + i] == r);
    }
    if all.contains(r) {
        let i = choose|i: int| 0 <= i < all.len() && all[i] == r;
        if i < a.len() {
            assert(a[i] == r);
        } else {
            assert(b[i - a.len()] == r);
        }
    }
}

/// Where the sub-epics or their tasks cannot be read, or a task cannot be moved, the sync
/// ends with what the store said, and nothing was written.
pub proof fn a_sync_that_cannot_open_says_why(
    parent: EpicId,
    entries: Seq<EntryView>,
    mode: SyncMode,
    h: Seq<StoreAnswer>,
)
    ensures
        h.len() == 0 ==> role_routed(parent, entries, mode, h) == SyncStepView::<OutcomeView>::Ask(
            StoreActionView::ListSubEpics(parent),
        ),
        h.len() > 0 ==> (h[0] matches StoreAnswer::Failed(why) ==> role_routed(
            parent,
            entries,
            mode,
            h,
        ) == SyncStepView::<OutcomeView>::Failed(why@)),
        roles::roles_ensured(parent, h, 0) matches SyncStepView::Failed(why) ==> role_routed(
            parent,
            entries,
            mode,
            h,
        ) == SyncStepView::<OutcomeView>::Failed(why),
        roles::roles_ensured(parent, h, 0) matches SyncStepView::Done(to, at) ==> (index::indexed(
            parent,
            to.ids(),
            h,
            at,
        ) matches SyncStepView::Failed(why) ==> role_routed(parent, entries, mode, h)
            == SyncStepView::<OutcomeView>::Failed(why)),
{
}

} // verus!

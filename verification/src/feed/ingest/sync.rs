//! Which way an emission takes into the board.

use vstd::prelude::*;

use crate::feed::entries;
use crate::feed::entries::{EntryView, FeedItemWithTarget, SyncMode};
use crate::feed::ingest::grouped;
use crate::feed::ingest::role_routed;
use crate::feed::store;
use crate::feed::store::{
    FeedSyncOutcome, OutcomeView, StoreAction, StoreActionView, StoreAnswer, SyncStep, SyncStepView,
};
use crate::models::{Epic, EpicId, EpicOrigin, FeedRole, TaskStatus};

verus! {

/// The complaint about a role's sub-epic that has a feed command of its own.
pub const ROLE_WITH_COMMAND: &'static str =
    "role sub-epic carries a feed command; it is reconciled only via its reviews parent";

/// Is a repository group among the epics that is not archived?
pub open spec fn has_repo_group(epics: Seq<Epic>) -> bool {
    exists|i: int|
        0 <= i < epics.len() && (#[trigger] epics[i]).origin == EpicOrigin::RepoGroup
            && epics[i].status != TaskStatus::Archived
}

fn find_repo_group(epics: &Vec<Epic>) -> (r: bool)
    ensures
        r == has_repo_group(epics@),
{
    let mut i: usize = 0;
    while i < epics.len()
        invariant
            i <= epics.len(),
            forall|j: int|
                0 <= j < i ==> !((#[trigger] epics@[j]).origin == EpicOrigin::RepoGroup
                    && epics@[j].status != TaskStatus::Archived),
        decreases epics.len() - i,
    {
        if epics[i].origin == EpicOrigin::RepoGroup && epics[i].status != TaskStatus::Archived {
            return true;
        }
        i += 1;
    }
    false
}

/// Writing an emission into one epic, by the answers from index `at` on.
pub open spec fn flat_written(
    epic: EpicId,
    entries: Seq<EntryView>,
    mode: SyncMode,
    h: Seq<StoreAnswer>,
    at: int,
) -> SyncStepView<OutcomeView> {
    if h.len() <= at {
        SyncStepView::Ask(role_routed::written(epic, entries, mode))
    } else {
        match h[at].failure() {
            Some(why) => SyncStepView::Failed(why),
            None => SyncStepView::Done(
                OutcomeView { affected_epics: seq![epic], removed: h[at].gone() },
                at + 1,
            ),
        }
    }
}

/// A sync into one epic, by the answers so far. Repository groups that are left
/// from a time when the epic was sorted are taken up into it first.
pub open spec fn flat(epic: EpicId, entries: Seq<EntryView>, mode: SyncMode, h: Seq<StoreAnswer>) -> SyncStepView<
    OutcomeView,
> {
    if h.len() == 0 {
        SyncStepView::Ask(StoreActionView::ListSubEpics(epic))
    } else {
        match h[0].epics() {
            Err(why) => SyncStepView::Failed(why),
            Ok(subs) => if !has_repo_group(subs) {
                flat_written(epic, entries, mode, h, 1)
            } else if h.len() == 1 {
                SyncStepView::Ask(StoreActionView::Flatten(epic))
            } else {
                match h[1].failure() {
                    Some(why) => SyncStepView::Failed(why),
                    None => flat_written(epic, entries, mode, h, 2),
                }
            },
        }
    }
}

fn write_flat(
    epic: EpicId,
    entries: &Vec<FeedItemWithTarget>,
    mode: SyncMode,
    answers: &Vec<StoreAnswer>,
    at: usize,
) -> (r: SyncStep<FeedSyncOutcome>)
    requires
        at <= answers@.len(),
    ensures
        r@ == flat_written(epic, entries::entry_views(entries@), mode, answers@, at as int),
{
    if answers.len() <= at {
        return SyncStep::Ask(role_routed::write(epic, copied_entries(entries), mode));
    }
    match answers[at].why_failed() {
        Some(why) => SyncStep::Failed(why),
        None => {
            let mut outcome: FeedSyncOutcome = FeedSyncOutcome {
                affected_epics: vec![epic],
                removed: Vec::new(),
            };
            assert(store::removed_views(outcome.removed@) + answers@[at as int].gone()
                =~= answers@[at as int].gone());
            store::note_removed(&answers[at], &mut outcome.removed);
            assert(outcome@ =~= OutcomeView {
                affected_epics: seq![epic],
                removed: answers@[at as int].gone(),
            });
            SyncStep::Done(outcome, at + 1)
        },
    }
}

fn copied_entries(entries: &Vec<FeedItemWithTarget>) -> (r: Vec<FeedItemWithTarget>)
    ensures
        entries::entry_views(r@) == entries::entry_views(entries@),
{
    let mut r: Vec<FeedItemWithTarget> = Vec::new();
    let mut i: usize = 0;
    while i < entries.len()
        invariant
            i <= entries.len(),
            r@.len() == i,
            forall|j: int| 0 <= j < i ==> (#[trigger] r@[j])@ == entries@[j]@,
        decreases entries.len() - i,
    {
        r.push(entries[i].copied());
        i += 1;
    }
    assert(entries::entry_views(r@) =~= entries::entry_views(entries@));
    r
}

/// A sync that knows nothing of roles, by the answers so far.
pub open spec fn plain_sync(
    epic: EpicId,
    group_by_repo: bool,
    entries: Seq<EntryView>,
    mode: SyncMode,
    h: Seq<StoreAnswer>,
) -> SyncStepView<OutcomeView> {
    if group_by_repo {
        grouped::grouped(epic, entries, mode, h)
    } else {
        flat(epic, entries, mode, h)
    }
}

/// Sync an emission into an epic, or into one sub-epic for each repository.
pub fn run_feed_sync(
    epic: EpicId,
    group_by_repo: bool,
    entries: &Vec<FeedItemWithTarget>,
    mode: SyncMode,
    answers: &Vec<StoreAnswer>,
) -> (r: SyncStep<FeedSyncOutcome>)
    ensures
        r@ == plain_sync(epic, group_by_repo, entries::entry_views(entries@), mode, answers@),
{
    if group_by_repo {
        return grouped::sync_grouped_feed(epic, entries, mode, answers);
    }
    if answers.len() == 0 {
        return SyncStep::Ask(StoreAction::ListSubEpics(epic));
    }
    let leftovers: bool = match answers[0].read_epics() {
        Ok(subs) => find_repo_group(subs),
        Err(why) => return SyncStep::Failed(why),
    };
    if !leftovers {
        return write_flat(epic, entries, mode, answers, 1);
    }
    if answers.len() == 1 {
        return SyncStep::Ask(StoreAction::Flatten(epic));
    }
    match answers[1].why_failed() {
        Some(why) => SyncStep::Failed(why),
        None => write_flat(epic, entries, mode, answers, 2),
    }
}

/// A sync of an emission, by the answers so far. The epic's role decides: the
/// parent of the reviews spreads its emission over its subtree, a role's sub-epic
/// gets none of its own, and any other epic knows nothing of roles.
pub open spec fn sync_by_role(
    epic: EpicId,
    role: FeedRole,
    group_by_repo: bool,
    entries: Seq<EntryView>,
    mode: SyncMode,
    h: Seq<StoreAnswer>,
) -> SyncStepView<OutcomeView> {
    match role {
        FeedRole::ReviewsParent => role_routed::role_routed(epic, entries, mode, h),
        FeedRole::MyReviews => SyncStepView::Failed(ROLE_WITH_COMMAND@),
        FeedRole::TeamReviews => SyncStepView::Failed(ROLE_WITH_COMMAND@),
        FeedRole::Bots => SyncStepView::Failed(ROLE_WITH_COMMAND@),
        FeedRole::NoRole => plain_sync(epic, group_by_repo, entries, mode, h),
        FeedRole::Cve => plain_sync(epic, group_by_repo, entries, mode, h),
    }
}

/// Sync an emission into the board. Whoever calls does what it asks for, adds the
/// answer, and calls again until it is done.
pub fn run_feed_sync_by_role(
    epic: EpicId,
    role: FeedRole,
    group_by_repo: bool,
    entries: &Vec<FeedItemWithTarget>,
    mode: SyncMode,
    answers: &Vec<StoreAnswer>,
) -> (r: SyncStep<FeedSyncOutcome>)
    ensures
        r@ == sync_by_role(
            epic,
            role,
            group_by_repo,
            entries::entry_views(entries@),
            mode,
            answers@,
        ),
{
    match role {
        FeedRole::ReviewsParent => role_routed::run_role_routed_feed_sync(
            epic,
            entries,
            mode,
            answers,
        ),
        FeedRole::MyReviews | FeedRole::TeamReviews | FeedRole::Bots => SyncStep::Failed(
            ROLE_WITH_COMMAND.to_owned(),
        ),
        FeedRole::NoRole | FeedRole::Cve => run_feed_sync(
            epic,
            group_by_repo,
            entries,
            mode,
            answers,
        ),
    }
}

/// A sync that is to remove nothing asks for no removal, on whichever way it goes
/// and whatever the store says.
pub proof fn additive_sync_removes_nothing(
    epic: EpicId,
    role: FeedRole,
    group_by_repo: bool,
    entries: Seq<EntryView>,
    h: Seq<StoreAnswer>,
)
    ensures
        sync_by_role(
            epic,
            role,
            group_by_repo,
            entries,
            SyncMode::Additive,
            h,
        ) matches SyncStepView::Ask(a) ==> !a.removes(),
{
    role_routed::additive_reviews_sync_removes_nothing(epic, entries, h);
    grouped::additive_grouped_sync_removes_nothing(epic, entries, h);
}

/// A flat sync removes no task that the emission names, from the epic it writes
/// to or from elsewhere.
pub proof fn flat_sync_keeps_what_is_emitted(
    epic: EpicId,
    entries: Seq<EntryView>,
    mode: SyncMode,
    h: Seq<StoreAnswer>,
    i: int,
    holder: EpicId,
)
    requires
        0 <= i < entries.len(),
    ensures
        flat(epic, entries, mode, h) matches SyncStepView::Ask(a) ==> !a.may_take(
            holder,
            Some(entries[i].item.external_id),
        ),
{
    assert(store::names_of(entries)[i] == entries[i].item.external_id);
}

/// The parent of the reviews spreads its emission over its subtree; a role's sub-epic with
/// a command of its own is refused; and every other epic is sorted by repository exactly
/// where it is to be.
pub proof fn the_role_decides_the_way(
    epic: EpicId,
    role: FeedRole,
    group_by_repo: bool,
    entries: Seq<EntryView>,
    mode: SyncMode,
    h: Seq<StoreAnswer>,
)
    ensures
        ({
            let step = sync_by_role(epic, role, group_by_repo, entries, mode, h);
            &&& role == FeedRole::MyReviews || role == FeedRole::TeamReviews || role
                == FeedRole::Bots ==> step == SyncStepView::<OutcomeView>::Failed(
                "role sub-epic carries a feed command; it is reconciled only via its reviews parent"@,
            )
            &&& role == FeedRole::ReviewsParent ==> step == role_routed::role_routed(
                epic,
                entries,
                mode,
                h,
            )
            &&& (role == FeedRole::NoRole || role == FeedRole::Cve) && group_by_repo ==> step
                == grouped::grouped(epic, entries, mode, h)
            &&& (role == FeedRole::NoRole || role == FeedRole::Cve) && !group_by_repo ==> step
                == flat(epic, entries, mode, h)
        }),
{
}

/// The write of an emission into one epic: as all there is, or on top of what is there.
pub open spec fn write_of(epic: EpicId, entries: Seq<EntryView>, mode: SyncMode) -> StoreActionView {
    if mode == SyncMode::Reconcile {
        StoreActionView::Upsert { epic, entries }
    } else {
        StoreActionView::Merge { epic, entries }
    }
}

/// A flat sync lists the sub-epics; where a repository group is left that is not archived,
/// it takes the groups up into the epic; and then it writes the whole emission there. Any
/// failure ends it.
pub proof fn leftover_groups_are_taken_up_first(
    epic: EpicId,
    entries: Seq<EntryView>,
    mode: SyncMode,
    h: Seq<StoreAnswer>,
    subs: Seq<Epic>,
)
    requires
        h.len() > 0 ==> (h[0] matches StoreAnswer::Epics(epics) && epics@ == subs),
    ensures
        ({
            let step = flat(epic, entries, mode, h);
            let left = exists|i: int|
                0 <= i < subs.len() && (#[trigger] subs[i]).origin == EpicOrigin::RepoGroup
                    && subs[i].status != TaskStatus::Archived;
            &&& h.len() == 0 ==> step == SyncStepView::<OutcomeView>::Ask(
                StoreActionView::ListSubEpics(epic),
            )
            &&& h.len() == 1 && left ==> step == SyncStepView::<OutcomeView>::Ask(
                StoreActionView::Flatten(epic),
            )
            &&& h.len() == 1 && !left ==> step == SyncStepView::<OutcomeView>::Ask(
                write_of(epic, entries, mode),
            )
            &&& h.len() > 1 && h[1] is Failed ==> step is Failed
            &&& h.len() == 2 && left && !(h[1] is Failed) ==> step == SyncStepView::<
                OutcomeView,
            >::Ask(write_of(epic, entries, mode))
            &&& h.len() > 2 && left && !(h[1] is Failed) && h[2] is Failed ==> step is Failed
            &&& h.len() > 1 && !left && !(h[1] is Failed) ==> is_end(step, epic, h[1], 2)
            &&& h.len() > 2 && left && !(h[1] is Failed) && !(h[2] is Failed) ==> is_end(
                step,
                epic,
                h[2],
                3,
            )
        }),
{
}

/// Did the sync end after so many answers, with this epic affected and with what the write
/// removed?
pub open spec fn is_end(
    step: SyncStepView<OutcomeView>,
    epic: EpicId,
    write: StoreAnswer,
    answers: int,
) -> bool {
    step matches SyncStepView::Done(out, used) && used == answers && out.affected_epics
        == seq![epic] && (write matches StoreAnswer::Removed(gone) ==> out.removed == store::removed_views(gone@)) && (!(
    write is Removed) ==> out.removed.len() == 0)
}

/// Where the sub-epics cannot be listed, a flat sync fails, and nothing was written.
pub proof fn a_flat_sync_needs_the_sub_epics(
    epic: EpicId,
    entries: Seq<EntryView>,
    mode: SyncMode,
    h: Seq<StoreAnswer>,
)
    requires
        h.len() > 0,
        !(h[0] is Epics),
    ensures
        flat(epic, entries, mode, h) is Failed,
{
}

} // verus!

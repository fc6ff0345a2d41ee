//! Syncing an emission into one sub-epic for each repository.

use vstd::prelude::*;

use crate::feed::entries;
use crate::feed::entries::{EntryView, FeedItemWithTarget, SyncMode};
use crate::feed::ingest::role_routed as writing;
use crate::feed::repos;
use crate::feed::store;
use crate::feed::store::{
    FeedSyncOutcome, OutcomeView, StoreAction, StoreActionView, StoreAnswer, SyncStep, SyncStepView,
};
use crate::models::{Epic, EpicId, TaskStatus};
use crate::text;

verus! {

/// The repositories of the entries, each once, in the order in which they first
/// come.
pub open spec fn group_names(entries: Seq<EntryView>) -> Seq<Seq<char>>
    decreases entries.len(),
{
    if entries.len() == 0 {
        Seq::empty()
    } else {
        let before = group_names(entries.drop_last());
        let name = repos::group_name(entries.last().item.url);
        if before.contains(name) {
            before
        } else {
            before.push(name)
        }
    }
}

/// The entries of a repository.
pub open spec fn in_group(entries: Seq<EntryView>, name: Seq<char>) -> Seq<EntryView>
    decreases entries.len(),
{
    if entries.len() == 0 {
        Seq::empty()
    } else {
        let before = in_group(entries.drop_last(), name);
        if repos::group_name(entries.last().item.url) == name {
            before.push(entries.last())
        } else {
            before
        }
    }
}

fn holds(names: &Vec<String>, name: &str) -> (r: bool)
    ensures
        r == text::texts(names@).contains(name@),
{
    let mut i: usize = 0;
    while i < names.len()
        invariant
            i <= names.len(),
            forall|j: int| 0 <= j < i ==> (#[trigger] names@[j])@ != name@,
        decreases names.len() - i,
    {
        if text::same(names[i].as_str(), name) {
            assert(text::texts(names@)[i as int] == name@);
            return true;
        }
        i += 1;
    }
    assert forall|j: int| 0 <= j < text::texts(names@).len() implies text::texts(names@)[j]
        != name@ by {
        assert(text::texts(names@)[j] == names@[j]@);
    }
    false
}

fn names_of_groups(entries: &Vec<FeedItemWithTarget>) -> (r: Vec<String>)
    ensures
        text::texts(r@) == group_names(entries::entry_views(entries@)),
{
    let ghost views = entries::entry_views(entries@);
    let mut r: Vec<String> = Vec::new();
    let mut i: usize = 0;
    proof {
        assert(views.take(0) =~= Seq::empty());
        assert(text::texts(r@) =~= Seq::empty());
    }
    while i < entries.len()
        invariant
            i <= entries.len(),
            views == entries::entry_views(entries@),
            text::texts(r@) == group_names(views.take(i as int)),
        decreases entries.len() - i,
    {
        proof {
            assert(views.take(i + 1).drop_last() =~= views.take(i as int));
            assert(views.take(i + 1).last() == entries@[i as int]@);
        }
        let name: String = repos::repo_name_from_url(entries[i].item.url.as_str());
        if !holds(&r, name.as_str()) {
            proof {
                text::lemma_texts_push(r@, name);
            }
            r.push(name);
        }
        i += 1;
    }
    assert(views.take(i as int) =~= views);
    r
}

fn entries_of_group(entries: &Vec<FeedItemWithTarget>, name: &str) -> (r: Vec<FeedItemWithTarget>)
    ensures
        entries::entry_views(r@) == in_group(entries::entry_views(entries@), name@),
{
    let ghost views = entries::entry_views(entries@);
    let mut r: Vec<FeedItemWithTarget> = Vec::new();
    let mut i: usize = 0;
    proof {
        assert(views.take(0) =~= Seq::empty());
        assert(entries::entry_views(r@) =~= Seq::empty());
    }
    while i < entries.len()
        invariant
            i <= entries.len(),
            views == entries::entry_views(entries@),
            entries::entry_views(r@) == in_group(views.take(i as int), name@),
        decreases entries.len() - i,
    {
        proof {
            assert(views.take(i + 1).drop_last() =~= views.take(i as int));
            assert(views.take(i + 1).last() == entries@[i as int]@);
        }
        let own: String = repos::repo_name_from_url(entries[i].item.url.as_str());
        if text::same(own.as_str(), name) {
            let ghost before = r@;
            let entry: FeedItemWithTarget = entries[i].copied();
            r.push(entry);
            assert(entries::entry_views(r@) =~= entries::entry_views(before).push(entry@));
        }
        i += 1;
    }
    assert(views.take(i as int) =~= views);
    r
}

/// The first epic with the title that is not archived.
pub open spec fn titled(epics: Seq<Epic>, title: Seq<char>) -> Option<EpicId>
    decreases epics.len(),
{
    if epics.len() == 0 {
        None
    } else if epics[0].status != TaskStatus::Archived && epics[0].title@ == title {
        Some(epics[0].id)
    } else {
        titled(epics.skip(1), title)
    }
}

fn find_titled(epics: &Vec<Epic>, title: &str) -> (r: Option<EpicId>)
    ensures
        r == titled(epics@, title@),
{
    let mut i: usize = 0;
    assert(epics@.skip(0) =~= epics@);
    while i < epics.len()
        invariant
            i <= epics.len(),
            titled(epics@, title@) == titled(epics@.skip(i as int), title@),
        decreases epics.len() - i,
    {
        assert(epics@.skip(i as int).skip(1) =~= epics@.skip(i + 1));
        if epics[i].status != TaskStatus::Archived && text::same(epics[i].title.as_str(), title) {
            return Some(epics[i].id);
        }
        i += 1;
    }
    None
}

/// The epics that are not archived and whose repository is not among the names.
pub open spec fn dropped(epics: Seq<Epic>, names: Seq<Seq<char>>) -> Seq<EpicId>
    decreases epics.len(),
{
    if epics.len() == 0 {
        Seq::empty()
    } else {
        let before = dropped(epics.drop_last(), names);
        if epics.last().status != TaskStatus::Archived && !names.contains(epics.last().title@) {
            before.push(epics.last().id)
        } else {
            before
        }
    }
}

fn find_dropped(epics: &Vec<Epic>, names: &Vec<String>) -> (r: Vec<EpicId>)
    ensures
        r@ == dropped(epics@, text::texts(names@)),
{
    let mut r: Vec<EpicId> = Vec::new();
    let mut i: usize = 0;
    assert(epics@.take(0) =~= Seq::empty());
    while i < epics.len()
        invariant
            i <= epics.len(),
            r@ == dropped(epics@.take(i as int), text::texts(names@)),
        decreases epics.len() - i,
    {
        proof {
            assert(epics@.take(i + 1).drop_last() =~= epics@.take(i as int));
            assert(epics@.take(i + 1).last() == epics@[i as int]);
        }
        if epics[i].status != TaskStatus::Archived && !holds(names, epics[i].title.as_str()) {
            r.push(epics[i].id);
        }
        i += 1;
    }
    assert(epics@.take(i as int) =~= epics@);
    r
}

/// The epic of a repository, by the answers from index `at` on: the one that is
/// there, or one that is made; none where none can be made.
pub open spec fn group_ensured(
    parent: EpicId,
    name: Seq<char>,
    subs: Seq<Epic>,
    h: Seq<StoreAnswer>,
    at: int,
) -> SyncStepView<Option<EpicId>> {
    match titled(subs, name) {
        Some(id) => SyncStepView::Done(Some(id), at),
        None => if h.len() <= at {
            SyncStepView::Ask(StoreActionView::CreateEpic { title: name, parent })
        } else {
            match h[at].made() {
                Ok(id) => SyncStepView::Done(Some(id), at + 1),
                Err(_) => SyncStepView::Done(None, at + 1),
            }
        },
    }
}

/// Writing entries into an epic and then working out its status anew, by the
/// answers from index `at` on. Where the writing fails, it is left at that.
pub open spec fn settled(
    epic: EpicId,
    entries: Seq<EntryView>,
    mode: SyncMode,
    sofar: OutcomeView,
    h: Seq<StoreAnswer>,
    at: int,
) -> SyncStepView<OutcomeView> {
    if h.len() <= at {
        SyncStepView::Ask(writing::written(epic, entries, mode))
    } else if h[at].failure() is Some {
        SyncStepView::Done(sofar, at + 1)
    } else if h.len() <= at + 1 {
        SyncStepView::Ask(StoreActionView::Recalculate(epic))
    } else {
        SyncStepView::Done(
            OutcomeView {
                affected_epics: sofar.affected_epics,
                removed: sofar.removed + h[at].gone(),
            },
            at + 2,
        )
    }
}

fn upsert_sub_epic_and_recalc(
    epic: EpicId,
    entries: Vec<FeedItemWithTarget>,
    mode: SyncMode,
    first: FeedSyncOutcome,
    answers: &Vec<StoreAnswer>,
    at: usize,
) -> (r: SyncStep<FeedSyncOutcome>)
    requires
        at <= answers@.len(),
    ensures
        r@ == settled(
            epic,
            entries::entry_views(entries@),
            mode,
            first@,
            answers@,
            at as int,
        ),
        r@ matches SyncStepView::Done(_, used) ==> at <= used <= answers@.len(),
{
    if answers.len() <= at {
        return SyncStep::Ask(writing::write(epic, entries, mode));
    }
    match answers[at].why_failed() {
        Some(_) => return SyncStep::Done(first, at + 1),
        None => {},
    }
    if answers.len() - 1 <= at {
        return SyncStep::Ask(StoreAction::Recalculate(epic));
    }
    let mut sofar: FeedSyncOutcome = first;
    store::note_removed(&answers[at], &mut sofar.removed);
    SyncStep::Done(sofar, at + 2)
}

/// The outcome with one more epic whose content may have changed.
pub open spec fn naming(sofar: OutcomeView, epic: EpicId) -> OutcomeView {
    OutcomeView { affected_epics: sofar.affected_epics.push(epic), removed: sofar.removed }
}

/// Writing each repository's entries into its epic, by the answers from index
/// `at` on. A repository whose epic cannot be made is passed over.
pub open spec fn groups_written(
    parent: EpicId,
    names: Seq<Seq<char>>,
    entries: Seq<EntryView>,
    subs: Seq<Epic>,
    mode: SyncMode,
    sofar: OutcomeView,
    h: Seq<StoreAnswer>,
    at: int,
) -> SyncStepView<OutcomeView>
    decreases names.len(),
{
    if names.len() == 0 {
        SyncStepView::Done(sofar, at)
    } else {
        match group_ensured(parent, names[0], subs, h, at) {
            SyncStepView::Ask(action) => SyncStepView::Ask(action),
            SyncStepView::Failed(why) => SyncStepView::Failed(why),
            SyncStepView::Done(None, at) => groups_written(
                parent,
                names.skip(1),
                entries,
                subs,
                mode,
                sofar,
                h,
                at,
            ),
            SyncStepView::Done(Some(id), at) => match settled(
                id,
                in_group(entries, names[0]),
                mode,
                naming(sofar, id),
                h,
                at,
            ) {
                SyncStepView::Ask(action) => SyncStepView::Ask(action),
                SyncStepView::Failed(why) => SyncStepView::Failed(why),
                SyncStepView::Done(more, at) => groups_written(
                    parent,
                    names.skip(1),
                    entries,
                    subs,
                    mode,
                    more,
                    h,
                    at,
                ),
            },
        }
    }
}

fn ensure_group(
    parent: EpicId,
    name: &str,
    subs: &Vec<Epic>,
    answers: &Vec<StoreAnswer>,
    at: usize,
) -> (r: SyncStep<Option<EpicId>>)
    requires
        at <= answers@.len(),
    ensures
        r@ == group_ensured(parent, name@, subs@, answers@, at as int),
        r@ matches SyncStepView::Done(_, used) ==> at <= used <= answers@.len(),
{
    match find_titled(subs, name) {
        Some(id) => SyncStep::Done(Some(id), at),
        None => {
            if answers.len() <= at {
                return SyncStep::Ask(StoreAction::CreateEpic { title: name.to_owned(), parent });
            }
            match answers[at].read_made() {
                Ok(id) => SyncStep::Done(Some(id), at + 1),
                Err(_) => SyncStep::Done(None, at + 1),
            }
        },
    }
}

fn write_groups(
    parent: EpicId,
    names: &Vec<String>,
    entries: &Vec<FeedItemWithTarget>,
    subs: &Vec<Epic>,
    mode: SyncMode,
    first: FeedSyncOutcome,
    answers: &Vec<StoreAnswer>,
    start: usize,
) -> (r: SyncStep<FeedSyncOutcome>)
    requires
        start <= answers@.len(),
    ensures
        r@ == groups_written(
            parent,
            text::texts(names@),
            entries::entry_views(entries@),
            subs@,
            mode,
            first@,
            answers@,
            start as int,
        ),
        r@ matches SyncStepView::Done(_, used) ==> start <= used <= answers@.len(),
{
    let ghost all = text::texts(names@);
    let ghost views = entries::entry_views(entries@);
    let mut sofar: FeedSyncOutcome = first;
    let mut at: usize = start;
    let mut i: usize = 0;
    assert(all.skip(0) =~= all);
    while i < names.len()
        invariant
            i <= names.len(),
            start <= at <= answers@.len(),
            all == text::texts(names@),
            views == entries::entry_views(entries@),
            groups_written(parent, all, views, subs@, mode, first@, answers@, start as int)
                == groups_written(
                parent,
                all.skip(i as int),
                views,
                subs@,
                mode,
                sofar@,
                answers@,
                at as int,
            ),
        decreases names.len() - i,
    {
        proof {
            assert(all.skip(i as int)[0] == names@[i as int]@);
            assert(all.skip(i as int).skip(1) =~= all.skip(i + 1));
        }
        match ensure_group(parent, names[i].as_str(), subs, answers, at) {
            SyncStep::Ask(action) => return SyncStep::Ask(action),
            SyncStep::Failed(why) => return SyncStep::Failed(why),
            SyncStep::Done(None, used) => {
                at = used;
            },
            SyncStep::Done(Some(id), used) => {
                let group: Vec<FeedItemWithTarget> = entries_of_group(entries, names[i].as_str());
                let ghost before = sofar@;
                sofar.affected_epics.push(id);
                assert(sofar@ =~= naming(before, id));
                match upsert_sub_epic_and_recalc(id, group, mode, sofar, answers, used) {
                    SyncStep::Ask(action) => return SyncStep::Ask(action),
                    SyncStep::Failed(why) => return SyncStep::Failed(why),
                    SyncStep::Done(more, used) => {
                        sofar = more;
                        at = used;
                    },
                }
            },
        }
        i += 1;
    }
    SyncStep::Done(sofar, at)
}

/// Removing the feed tasks of epics, by the answers from index `at` on.
pub open spec fn cleared(ids: Seq<EpicId>, sofar: OutcomeView, h: Seq<StoreAnswer>, at: int) -> SyncStepView<
    OutcomeView,
>
    decreases ids.len(),
{
    if ids.len() == 0 {
        SyncStepView::Done(sofar, at)
    } else {
        match settled(ids[0], Seq::empty(), SyncMode::Reconcile, naming(sofar, ids[0]), h, at) {
            SyncStepView::Ask(action) => SyncStepView::Ask(action),
            SyncStepView::Failed(why) => SyncStepView::Failed(why),
            SyncStepView::Done(more, at) => cleared(ids.skip(1), more, h, at),
        }
    }
}

fn clear(ids: &Vec<EpicId>, first: FeedSyncOutcome, answers: &Vec<StoreAnswer>, start: usize) -> (r:
    SyncStep<FeedSyncOutcome>)
    requires
        start <= answers@.len(),
    ensures
        r@ == cleared(ids@, first@, answers@, start as int),
        r@ matches SyncStepView::Done(_, used) ==> start <= used <= answers@.len(),
{
    let mut sofar: FeedSyncOutcome = first;
    let mut at: usize = start;
    let mut i: usize = 0;
    assert(ids@.skip(0) =~= ids@);
    while i < ids.len()
        invariant
            i <= ids.len(),
            start <= at <= answers@.len(),
            cleared(ids@, first@, answers@, start as int) == cleared(
                ids@.skip(i as int),
                sofar@,
                answers@,
                at as int,
            ),
        decreases ids.len() - i,
    {
        let none: Vec<FeedItemWithTarget> = Vec::new();
        let ghost before = sofar@;
        sofar.affected_epics.push(ids[i]);
        proof {
            assert(ids@.skip(i as int).skip(1) =~= ids@.skip(i + 1));
            assert(entries::entry_views(none@) =~= Seq::empty());
            assert(sofar@ =~= naming(before, ids@[i as int]));
        }
        match upsert_sub_epic_and_recalc(ids[i], none, SyncMode::Reconcile, sofar, answers, at) {
            SyncStep::Ask(action) => return SyncStep::Ask(action),
            SyncStep::Failed(why) => return SyncStep::Failed(why),
            SyncStep::Done(more, used) => {
                sofar = more;
                at = used;
            },
        }
        i += 1;
    }
    SyncStep::Done(sofar, at)
}

/// A sync by repository, by the answers so far. Where the sub-epics cannot be
/// listed, nothing is written. Otherwise each repository's entries are written;
/// and, where the emission says all there is, the epics of the other repositories
/// are cleared, and then the parent itself.
pub open spec fn grouped(
    parent: EpicId,
    entries: Seq<EntryView>,
    mode: SyncMode,
    h: Seq<StoreAnswer>,
) -> SyncStepView<OutcomeView> {
    let names = group_names(entries);
    if h.len() == 0 {
        SyncStepView::Ask(StoreActionView::ListSubEpics(parent))
    } else {
        match h[0].epics() {
            Err(_) => SyncStepView::Done(
                OutcomeView { affected_epics: Seq::empty(), removed: Seq::empty() },
                1,
            ),
            Ok(subs) => match groups_written(
                parent,
                names,
                entries,
                subs,
                mode,
                OutcomeView { affected_epics: seq![parent], removed: Seq::empty() },
                h,
                1,
            ) {
                SyncStepView::Ask(action) => SyncStepView::Ask(action),
                SyncStepView::Failed(why) => SyncStepView::Failed(why),
                SyncStepView::Done(sofar, at) => if mode == SyncMode::Additive {
                    SyncStepView::Done(sofar, at)
                } else {
                    match cleared(dropped(subs, names), sofar, h, at) {
                        SyncStepView::Ask(action) => SyncStepView::Ask(action),
                        SyncStepView::Failed(why) => SyncStepView::Failed(why),
                        SyncStepView::Done(sofar, at) => settled(
                            parent,
                            Seq::empty(),
                            SyncMode::Reconcile,
                            sofar,
                            h,
                            at,
                        ),
                    }
                },
            },
        }
    }
}

/// Sync an emission by repository.
pub fn sync_grouped_feed(
    parent: EpicId,
    entries: &Vec<FeedItemWithTarget>,
    mode: SyncMode,
    answers: &Vec<StoreAnswer>,
) -> (r: SyncStep<FeedSyncOutcome>)
    ensures
        r@ == grouped(parent, entries::entry_views(entries@), mode, answers@),
{
    if answers.len() == 0 {
        return SyncStep::Ask(StoreAction::ListSubEpics(parent));
    }
    let subs: &Vec<Epic> = match answers[0].read_epics() {
        Ok(subs) => subs,
        Err(_) => {
            let none: FeedSyncOutcome = FeedSyncOutcome {
                affected_epics: Vec::new(),
                removed: Vec::new(),
            };
            assert(none@ =~= OutcomeView { affected_epics: Seq::empty(), removed: Seq::empty() });
            return SyncStep::Done(none, 1);
        },
    };
    let names: Vec<String> = names_of_groups(entries);
    let first: FeedSyncOutcome = FeedSyncOutcome {
        affected_epics: vec![parent],
        removed: Vec::new(),
    };
    assert(first@ =~= OutcomeView { affected_epics: seq![parent], removed: Seq::empty() });
    let (sofar, at): (FeedSyncOutcome, usize) = match write_groups(
        parent,
        &names,
        entries,
        subs,
        mode,
        first,
        answers,
        1,
    ) {
        SyncStep::Ask(action) => return SyncStep::Ask(action),
        SyncStep::Failed(why) => return SyncStep::Failed(why),
        SyncStep::Done(sofar, at) => (sofar, at),
    };
    if !mode.removes_absent() {
        return SyncStep::Done(sofar, at);
    }
    let gone: Vec<EpicId> = find_dropped(subs, &names);
    let (sofar, at): (FeedSyncOutcome, usize) = match clear(&gone, sofar, answers, at) {
        SyncStep::Ask(action) => return SyncStep::Ask(action),
        SyncStep::Failed(why) => return SyncStep::Failed(why),
        SyncStep::Done(sofar, at) => (sofar, at),
    };
    let none: Vec<FeedItemWithTarget> = Vec::new();
    assert(entries::entry_views(none@) =~= Seq::empty());
    upsert_sub_epic_and_recalc(parent, none, SyncMode::Reconcile, sofar, answers, at)
}

/// Every entry is in the group of its own repository and in no other; each group
/// is written once.
pub proof fn groups_part_the_entries(entries: Seq<EntryView>)
    ensures
        group_names(entries).no_duplicates(),
        forall|i: int|
            0 <= i < entries.len() ==> group_names(entries).contains(
                repos::group_name((#[trigger] entries[i]).item.url),
            ) && in_group(entries, repos::group_name(entries[i].item.url)).contains(entries[i]),
        forall|name: Seq<char>, e: EntryView| #[trigger]
            in_group(entries, name).contains(e) ==> entries.contains(e) && repos::group_name(
                e.item.url,
            ) == name,
    decreases entries.len(),
{
    if entries.len() > 0 {
        let before = entries.drop_last();
        let last = entries.last();
        let own = repos::group_name(last.item.url);
        groups_part_the_entries(before);
        let names = group_names(entries);
        let earlier = group_names(before);
        assert forall|n: Seq<char>| earlier.contains(n) implies #[trigger] names.contains(n) by {
            let j = choose|j: int| 0 <= j < earlier.len() && earlier[j] == n;
            assert(names[j] == n);
        }
        assert(names.contains(own)) by {
            if !earlier.contains(own) {
                assert(names[earlier.len() as int] == own);
            }
        }
        assert forall|i: int| 0 <= i < entries.len() implies names.contains(
            repos::group_name((#[trigger] entries[i]).item.url),
        ) && in_group(entries, repos::group_name(entries[i].item.url)).contains(entries[i]) by {
            let name = repos::group_name(entries[i].item.url);
            let sofar = in_group(before, name);
            let all = in_group(entries, name);
            if i < before.len() {
                assert(before[i] == entries[i]);
                let j = choose|j: int| 0 <= j < sofar.len() && sofar[j] == entries[i];
                assert(all[j] == entries[i]);
            } else {
                assert(all[sofar.len() as int] == entries[i]);
            }
        }
        assert forall|name: Seq<char>, e: EntryView| #[trigger]
            in_group(entries, name).contains(e) implies entries.contains(e) && repos::group_name(
            e.item.url,
        ) == name by {
            let sofar = in_group(before, name);
            let all = in_group(entries, name);
            let j = choose|j: int| 0 <= j < all.len() && all[j] == e;
            if j < sofar.len() {
                assert(sofar[j] == e);
                assert(sofar.contains(e));
                let i = choose|i: int| 0 <= i < before.len() && before[i] == e;
                assert(entries[i] == e);
            } else {
                assert(entries[entries.len() - 1] == e);
            }
        }
    }
}

proof fn lemma_groups_ask(
    parent: EpicId,
    names: Seq<Seq<char>>,
    entries: Seq<EntryView>,
    subs: Seq<Epic>,
    sofar: OutcomeView,
    h: Seq<StoreAnswer>,
    at: int,
)
    ensures
        groups_written(
            parent,
            names,
            entries,
            subs,
            SyncMode::Additive,
            sofar,
            h,
            at,
        ) matches SyncStepView::Ask(a) ==> !a.removes(),
    decreases names.len(),
{
    if names.len() > 0 {
        match group_ensured(parent, names[0], subs, h, at) {
            SyncStepView::Done(None, at) => {
                lemma_groups_ask(parent, names.skip(1), entries, subs, sofar, h, at);
            },
            SyncStepView::Done(Some(id), at) => {
                match settled(
                    id,
                    in_group(entries, names[0]),
                    SyncMode::Additive,
                    naming(sofar, id),
                    h,
                    at,
                ) {
                    SyncStepView::Done(more, at) => {
                        lemma_groups_ask(parent, names.skip(1), entries, subs, more, h, at);
                    },
                    _ => {},
                }
            },
            _ => {},
        }
    }
}

/// A sync that is to remove nothing asks for no removal, whatever the store says.
pub proof fn additive_grouped_sync_removes_nothing(
    parent: EpicId,
    entries: Seq<EntryView>,
    h: Seq<StoreAnswer>,
)
    ensures
        grouped(parent, entries, SyncMode::Additive, h) matches SyncStepView::Ask(a)
            ==> !a.removes(),
{
    if h.len() > 0 {
        match h[0].epics() {
            Ok(subs) => {
                lemma_groups_ask(
                    parent,
                    group_names(entries),
                    entries,
                    subs,
                    OutcomeView { affected_epics: seq![parent], removed: Seq::empty() },
                    h,
                    1,
                );
            },
            Err(_) => {},
        }
    }
}

/// The epics that are cleared are those that are not archived and whose repository is
/// not among the names, each as often as it comes.
pub proof fn lemma_dropped(epics: Seq<Epic>, names: Seq<Seq<char>>, id: EpicId)
    ensures
        dropped(epics, names).contains(id) ==> exists|i: int|
            0 <= i < epics.len() && (#[trigger] epics[i]).id == id && epics[i].status
                != TaskStatus::Archived && !names.contains(epics[i].title@),
        forall|i: int|
            0 <= i < epics.len() && (#[trigger] epics[i]).id == id && epics[i].status
                != TaskStatus::Archived && !names.contains(epics[i].title@) ==> dropped(
                epics,
                names,
            ).contains(id),
    decreases epics.len(),
{
    if epics.len() > 0 {
        let before = epics.drop_last();
        let sofar = dropped(before, names);
        let all = dropped(epics, names);
        lemma_dropped(before, names, id);
        if all.contains(id) {
            let j = choose|j: int| 0 <= j < all.len() && all[j] == id;
            if j < sofar.len() {
                assert(sofar[j] == id);
                let i = choose|i: int|
                    0 <= i < before.len() && (#[trigger] before[i]).id == id && before[i].status
                        != TaskStatus::Archived && !names.contains(before[i].title@);
                assert(epics[i].id == id);
            } else {
                assert(epics[epics.len() - 1].id == id);
            }
        }
        assert forall|i: int|
            0 <= i < epics.len() && (#[trigger] epics[i]).id == id && epics[i].status
                != TaskStatus::Archived && !names.contains(epics[i].title@) implies all.contains(
            id,
        ) by {
            if i < before.len() {
                assert(before[i].id == id);
                let j = choose|j: int| 0 <= j < sofar.len() && sofar[j] == id;
                assert(all[j] == id);
            } else {
                assert(all[sofar.len() as int] == id);
            }
        }
    }
}

/// Where no two epics share an identity, none is cleared twice.
pub proof fn lemma_dropped_once(epics: Seq<Epic>, names: Seq<Seq<char>>)
    requires
        forall|a: int, b: int|
            0 <= a < b < epics.len() ==> (#[trigger] epics[a]).id != (#[trigger] epics[b]).id,
    ensures
        dropped(epics, names).no_duplicates(),
    decreases epics.len(),
{
    if epics.len() > 0 {
        let before = epics.drop_last();
        lemma_dropped_once(before, names);
        lemma_dropped(before, names, epics.last().id);
        if dropped(before, names).contains(epics.last().id) {
            let i = choose|i: int|
                0 <= i < before.len() && (#[trigger] before[i]).id == epics.last().id;
            assert(epics[i].id == epics[epics.len() - 1].id);
        }
    }
}

/// The epic of a title is one with it that is not archived; and there is one wherever
/// there can be.
pub proof fn lemma_titled(epics: Seq<Epic>, title: Seq<char>)
    ensures
        titled(epics, title) matches Some(id) ==> exists|i: int|
            0 <= i < epics.len() && (#[trigger] epics[i]).id == id && epics[i].status
                != TaskStatus::Archived && epics[i].title@ == title,
        titled(epics, title) is None ==> forall|i: int|
            0 <= i < epics.len() ==> !((#[trigger] epics[i]).status != TaskStatus::Archived
                && epics[i].title@ == title),
    decreases epics.len(),
{
    if epics.len() > 0 {
        let rest = epics.skip(1);
        lemma_titled(rest, title);
        match titled(epics, title) {
            Some(id) => {
                if !(epics[0].status != TaskStatus::Archived && epics[0].title@ == title) {
                    let i = choose|i: int|
                        0 <= i < rest.len() && (#[trigger] rest[i]).id == id && rest[i].status
                            != TaskStatus::Archived && rest[i].title@ == title;
                    assert(epics[i + 1].id == id);
                }
            },
            None => {
                assert forall|i: int| 0 <= i < epics.len() implies !((#[trigger] epics[i]).status
                    != TaskStatus::Archived && epics[i].title@ == title) by {
                    if i > 0 {
                        assert(rest[i - 1] == epics[i]);
                    }
                }
            },
        }
    }
}

/// Where no two sub-epics share an identity, the epic of a repository in the
/// emission is not among those that are cleared; and no archived epic is written
/// to or cleared.
pub proof fn emitted_repository_is_not_cleared(
    subs: Seq<Epic>,
    names: Seq<Seq<char>>,
    name: Seq<char>,
    i: int,
)
    requires
        forall|a: int, b: int|
            0 <= a < b < subs.len() ==> (#[trigger] subs[a]).id != (#[trigger] subs[b]).id,
        names.contains(name),
    ensures
        titled(subs, name) matches Some(id) ==> !dropped(subs, names).contains(id),
        0 <= i < subs.len() && subs[i].status == TaskStatus::Archived ==> titled(subs, name) != Some(
            subs[i].id,
        ) && !dropped(subs, names).contains(subs[i].id),
{
    lemma_titled(subs, name);
    match titled(subs, name) {
        Some(id) => {
            lemma_dropped(subs, names, id);
        },
        None => {},
    }
    if 0 <= i < subs.len() {
        lemma_dropped(subs, names, subs[i].id);
    }
}

/// A repository's entries are all of its own, in the order of the emission.
pub proof fn a_group_keeps_the_order(entries: Seq<EntryView>, name: Seq<char>)
    ensures
        in_group(entries, name) == entries.filter(
            |e: EntryView| repos::group_name(e.item.url) == name,
        ),
    decreases entries.len(),
{
    reveal(Seq::filter);
    if entries.len() > 0 {
        a_group_keeps_the_order(entries.drop_last(), name);
    }
}

/// The repositories come in the order of their first items: a further item adds its
/// repository at the end, where that is new, and nothing else.
pub proof fn repositories_come_in_the_order_of_their_items(entries: Seq<EntryView>, more: EntryView)
    ensures
        ({
            let name = repos::group_name(more.item.url);
            let known = exists|i: int|
                0 <= i < entries.len() && repos::group_name((#[trigger] entries[i]).item.url)
                    == name;
            &&& known ==> group_names(entries.push(more)) == group_names(entries)
            &&& !known ==> group_names(entries.push(more)) == group_names(entries).push(name)
        }),
        group_names(Seq::<EntryView>::empty()) == Seq::<Seq<char>>::empty(),
{
    let name = repos::group_name(more.item.url);
    let longer = entries.push(more);
    assert(longer.drop_last() =~= entries);
    groups_part_the_entries(entries);
    if group_names(entries).contains(name) {
        lemma_named_by_an_entry(entries, name);
    }
}

proof fn lemma_named_by_an_entry(entries: Seq<EntryView>, name: Seq<char>)
    requires
        group_names(entries).contains(name),
    ensures
        exists|i: int|
            0 <= i < entries.len() && repos::group_name((#[trigger] entries[i]).item.url) == name,
    decreases entries.len(),
{
    let last = entries[entries.len() - 1];
    if repos::group_name(last.item.url) == name {
        assert(repos::group_name(entries[entries.len() - 1].item.url) == name);
    } else {
        let before = entries.drop_last();
        let all = group_names(entries);
        let sofar = group_names(before);
        let j = choose|j: int| 0 <= j < all.len() && all[j] == name;
        assert(sofar.contains(name)) by {
            if !sofar.contains(repos::group_name(last.item.url)) {
                assert(j < sofar.len());
            }
            assert(sofar[j] == name);
        }
        lemma_named_by_an_entry(before, name);
        let i = choose|i: int|
            0 <= i < before.len() && repos::group_name((#[trigger] before[i]).item.url) == name;
        assert(entries[i] == before[i]);
    }
}

/// An epic is written first and its status worked out then, and what the writing removed
/// is noted; where the writing fails, neither happens, and the sync goes on.
pub proof fn an_epic_is_written_and_then_worked_out(
    epic: EpicId,
    entries: Seq<EntryView>,
    sofar: OutcomeView,
    h: Seq<StoreAnswer>,
    at: int,
)
    requires
        0 <= at,
    ensures
        h.len() == at ==> settled(epic, entries, SyncMode::Reconcile, sofar, h, at)
            == SyncStepView::<OutcomeView>::Ask(StoreActionView::Upsert { epic, entries }),
        h.len() == at ==> settled(epic, entries, SyncMode::Additive, sofar, h, at)
            == SyncStepView::<OutcomeView>::Ask(StoreActionView::Merge { epic, entries }),
        forall|mode: SyncMode|
            at < h.len() && h[at] is Failed ==> #[trigger] settled(
                epic,
                entries,
                mode,
                sofar,
                h,
                at,
            ) == SyncStepView::Done(sofar, at + 1),
        forall|mode: SyncMode|
            h.len() == at + 1 && !(h[at] is Failed) ==> #[trigger] settled(
                epic,
                entries,
                mode,
                sofar,
                h,
                at,
            ) == SyncStepView::<OutcomeView>::Ask(StoreActionView::Recalculate(epic)),
        forall|mode: SyncMode|
            h.len() > at + 1 && !(h[at] is Failed) ==> (#[trigger] settled(
                epic,
                entries,
                mode,
                sofar,
                h,
                at,
            ) matches SyncStepView::Done(more, used) && used == at + 2 && more.affected_epics
                == sofar.affected_epics && (h[at] matches StoreAnswer::Removed(gone)
                ==> more.removed == sofar.removed + store::removed_views(gone@)) && (!(h[at]
                is Removed) ==> more.removed == sofar.removed)),
{
    assert(sofar.removed + Seq::empty() =~= sofar.removed);
}

/// A repository's epic is made, under the repository's name and below the parent, only
/// where none that is not archived has that title; where it cannot be made, the
/// repository is passed over.
pub proof fn an_epic_is_made_only_where_none_has_the_title(
    parent: EpicId,
    name: Seq<char>,
    subs: Seq<Epic>,
    h: Seq<StoreAnswer>,
    at: int,
)
    requires
        0 <= at,
    ensures
        ({
            let step = group_ensured(parent, name, subs, h, at);
            let there = exists|i: int|
                0 <= i < subs.len() && (#[trigger] subs[i]).status != TaskStatus::Archived
                    && subs[i].title@ == name;
            &&& there ==> (step matches SyncStepView::Done(Some(id), used) && used == at && exists|
                i: int,
            |
                0 <= i < subs.len() && (#[trigger] subs[i]).id == id && subs[i].title@ == name
                    && subs[i].status != TaskStatus::Archived)
            &&& !there && h.len() == at ==> step == SyncStepView::<Option<EpicId>>::Ask(
                StoreActionView::CreateEpic { title: name, parent },
            )
            &&& !there && at < h.len() ==> if h[at] is Made {
                step == SyncStepView::Done(Some(h[at]->Made_0), at + 1)
            } else {
                step == SyncStepView::Done(None::<EpicId>, at + 1)
            }
        }),
{
    lemma_titled(subs, name);
}

/// Where the sub-epics cannot be listed, nothing is done and nothing is affected; and an
/// emission without items that is not all there is changes nothing.
pub proof fn without_the_sub_epics_nothing_is_done(
    parent: EpicId,
    entries: Seq<EntryView>,
    mode: SyncMode,
    h: Seq<StoreAnswer>,
)
    ensures
        h.len() == 0 ==> grouped(parent, entries, mode, h) == SyncStepView::<OutcomeView>::Ask(
            StoreActionView::ListSubEpics(parent),
        ),
        h.len() > 0 && !(h[0] is Epics) ==> (grouped(parent, entries, mode, h)
            matches SyncStepView::Done(out, used) && used == 1 && out.affected_epics.len() == 0
            && out.removed.len() == 0),
        h.len() > 0 && h[0] is Epics && entries.len() == 0 && mode == SyncMode::Additive ==> (
        grouped(parent, entries, mode, h) matches SyncStepView::Done(out, used) && used == 1
            && out.affected_epics == seq![parent] && out.removed.len() == 0),
{
}

} // verus!

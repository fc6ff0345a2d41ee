//! What a sync by repository makes of the board.

use vstd::prelude::*;

use crate::feed::board;
use crate::feed::board::{Board, Held, Plan, Run};
use crate::feed::entries::{EntryView, SyncMode};
use crate::feed::ingest::grouped;
use crate::feed::store;
use crate::feed::store::{OutcomeView, StoreActionView, SyncStepView};
use crate::models::{Epic, EpicId, TaskId};

verus! {

/// Is it a sub-epic that is not archived?
pub open spec fn active(b: Board, parent: EpicId, e: EpicId) -> bool {
    b.is_child(e, parent) && !b.epics[e].archived
}

/// Do no two sub-epics that are not archived share a title?
pub open spec fn titles_differ(b: Board, parent: EpicId) -> bool {
    forall|d: EpicId, e: EpicId| #[trigger]
        active(b, parent, d) && #[trigger] active(b, parent, e) && b.epics[d].title
            == b.epics[e].title ==> d == e
}

/// Does no sub-epic hold two tasks under one name?
pub open spec fn names_differ(b: Board, parent: EpicId) -> bool {
    forall|s: TaskId, t: TaskId, e: EpicId, n: Seq<char>|
        b.is_child(e, parent) && #[trigger] board::lies(b.tasks, s, e, n) && #[trigger] board::lies(
            b.tasks,
            t,
            e,
            n,
        ) ==> s == t
}

/// Does the epic hold one feed task for each of these names, and no other?
pub open spec fn holds_exactly(tasks: Map<TaskId, Held>, e: EpicId, names: Seq<Seq<char>>) -> bool {
    &&& forall|t: TaskId, n: Seq<char>| #[trigger] board::lies(tasks, t, e, n) ==> names.contains(n)
    &&& forall|n: Seq<char>| #[trigger]
        names.contains(n) ==> exists|t: TaskId| #[trigger] board::lies(tasks, t, e, n)
    &&& forall|s: TaskId, t: TaskId, n: Seq<char>| #[trigger]
        board::lies(tasks, s, e, n) && #[trigger] board::lies(tasks, t, e, n) ==> s == t
}

/// What the items of a repository are called.
pub open spec fn names_in(entries: Seq<EntryView>, repo: Seq<char>) -> Seq<Seq<char>> {
    store::names_of(grouped::in_group(entries, repo))
}

/// The run of a sync by repository that is to make the board what the emission says.
pub open spec fn is_run(parent: EpicId, entries: Seq<EntryView>, run: Run) -> bool {
    &&& run.is_smooth()
    &&& forall|n: int|
        0 <= n < run.answers.len() ==> grouped::grouped(
            parent,
            entries,
            SyncMode::Reconcile,
            #[trigger] run.answers.take(n),
        ) == SyncStepView::<OutcomeView>::Ask(run.actions[n])
    &&& grouped::grouped(parent, entries, SyncMode::Reconcile, run.answers) is Done
}

/// An epic is written, and its status worked out anew.
proof fn lemma_settled(
    run: Run,
    epic: EpicId,
    entries: Seq<EntryView>,
    sofar: OutcomeView,
    at: int,
)
    requires
        run.is_smooth(),
        0 <= at <= run.answers.len(),
        forall|n: int|
            at <= n < run.answers.len() ==> board::asks(
                grouped::settled(
                    epic,
                    entries,
                    SyncMode::Reconcile,
                    sofar,
                    #[trigger] run.answers.take(n),
                    at,
                ),
                run.actions[n],
            ),
        grouped::settled(epic, entries, SyncMode::Reconcile, sofar, run.answers, at) is Done,
    ensures
        grouped::settled(epic, entries, SyncMode::Reconcile, sofar, run.answers, at)->Done_1 == at + 2,
        at + 2 <= run.answers.len(),
        run.boards[at + 2].epics == run.boards[at].epics,
        board::synced(
            run.boards[at].tasks,
            board::single(epic, store::names_of(entries)),
            true,
            run.boards[at + 2].tasks,
        ),
        forall|n: int|
            at + 2 <= n <= run.answers.len() ==> grouped::settled(
                epic,
                entries,
                SyncMode::Reconcile,
                sofar,
                #[trigger] run.answers.take(n),
                at,
            ) == grouped::settled(epic, entries, SyncMode::Reconcile, sofar, run.answers, at),
{
    let h = run.answers;
    assert(at < h.len());
    assert(h.take(at).len() == at);
    assert(run.goes_well(at));
    assert(h[at].failure() is None);
    assert(at + 1 < h.len());
    assert(h.take(at + 1)[at] == h[at]);
    assert(run.goes_well(at + 1));
    assert forall|n: int| at + 2 <= n <= h.len() implies grouped::settled(
        epic,
        entries,
        SyncMode::Reconcile,
        sofar,
        #[trigger] h.take(n),
        at,
    ) == grouped::settled(epic, entries, SyncMode::Reconcile, sofar, h, at) by {
        assert(h.take(n)[at] == h[at]);
    }
}

/// What is so once the first `i` repositories are written: the plan says which epics
/// were, and with what.
spec fn underway(
    first: Board,
    parent: EpicId,
    entries: Seq<EntryView>,
    names: Seq<Seq<char>>,
    i: int,
    plan: Plan,
    b: Board,
) -> bool {
    &&& board::synced(first.tasks, plan, true, b.tasks)
    &&& forall|e: EpicId| #[trigger]
        first.epics.contains_key(e) ==> b.epics.contains_key(e) && b.epics[e] == first.epics[e]
    &&& forall|e: EpicId| #[trigger]
        b.epics.contains_key(e) && !first.epics.contains_key(e) ==> plan.contains_key(e)
    &&& forall|e: EpicId| #[trigger]
        plan.contains_key(e) ==> active(b, parent, e) && plan[e] == names_in(
            entries,
            b.epics[e].title,
        ) && names.take(i).contains(b.epics[e].title)
    &&& forall|j: int|
        0 <= j < i ==> exists|e: EpicId|
            plan.contains_key(e) && (#[trigger] b.epics[e]).title == #[trigger] names[j]
    &&& titles_differ(b, parent)
}

proof fn lemma_one_more_repository(
    first: Board,
    parent: EpicId,
    entries: Seq<EntryView>,
    names: Seq<Seq<char>>,
    i: int,
    plan: Plan,
    b: Board,
    id: EpicId,
    after: Board,
)
    requires
        underway(first, parent, entries, names, i, plan, b),
        0 <= i < names.len(),
        names.no_duplicates(),
        board::synced(b.tasks, board::single(id, names_in(entries, names[i])), true, after.tasks),
        forall|e: EpicId| #[trigger]
            b.epics.contains_key(e) ==> after.epics.contains_key(e) && after.epics[e]
                == b.epics[e],
        forall|e: EpicId| #[trigger]
            after.epics.contains_key(e) && !b.epics.contains_key(e) ==> e == id,
        active(after, parent, id),
        after.epics[id].title == names[i],
        titles_differ(after, parent),
    ensures
        underway(
            first,
            parent,
            entries,
            names,
            i + 1,
            plan.insert(id, names_in(entries, names[i])),
            after,
        ),
{
    let more = plan.insert(id, names_in(entries, names[i]));
    if plan.contains_key(id) {
        assert(b.epics[id] == after.epics[id]);
        let j = choose|j: int| 0 <= j < names.take(i).len() && names.take(i)[j] == names[i];
        assert(names[j] == names[i]);
    }
    board::lemma_one_more_epic(
        first.tasks,
        plan,
        b.tasks,
        id,
        names_in(entries, names[i]),
        after.tasks,
    );
    assert forall|e: EpicId| #[trigger] more.contains_key(e) implies active(after, parent, e)
        && more[e] == names_in(entries, after.epics[e].title) && names.take(i + 1).contains(
        after.epics[e].title,
    ) by {
        if e == id {
            assert(names.take(i + 1)[i] == names[i]);
        } else {
            assert(plan.contains_key(e));
            assert(b.epics.contains_key(e));
            let title = b.epics[e].title;
            let j = choose|j: int| 0 <= j < names.take(i).len() && names.take(i)[j] == title;
            assert(names.take(i + 1)[j] == title);
        }
    }
    assert forall|j: int| 0 <= j < i + 1 implies exists|e: EpicId|
        more.contains_key(e) && (#[trigger] after.epics[e]).title == #[trigger] names[j] by {
        if j < i {
            let e = choose|e: EpicId|
                plan.contains_key(e) && (#[trigger] b.epics[e]).title == names[j];
            assert(active(b, parent, e));
            assert(b.epics.contains_key(e));
            assert(more.contains_key(e) && after.epics[e].title == names[j]);
        } else {
            assert(more.contains_key(id) && after.epics[id].title == names[j]);
        }
    }
}

proof fn lemma_groups_written(
    run: Run,
    parent: EpicId,
    entries: Seq<EntryView>,
    names: Seq<Seq<char>>,
    i: int,
    subs: Seq<Epic>,
    sofar: OutcomeView,
    at: int,
    plan: Plan,
) -> (full: Plan)
    requires
        run.is_smooth(),
        0 <= at <= run.answers.len(),
        0 <= i <= names.len(),
        names.no_duplicates(),
        run.start().lists_epics(parent, subs),
        run.start().epics.contains_key(parent),
        run.start().sound(),
        underway(run.start(), parent, entries, names, i, plan, run.boards[at]),
        forall|n: int|
            at <= n < run.answers.len() ==> board::asks(
                grouped::groups_written(
                    parent,
                    names.skip(i),
                    entries,
                    subs,
                    SyncMode::Reconcile,
                    sofar,
                    #[trigger] run.answers.take(n),
                    at,
                ),
                run.actions[n],
            ),
        grouped::groups_written(
            parent,
            names.skip(i),
            entries,
            subs,
            SyncMode::Reconcile,
            sofar,
            run.answers,
            at,
        ) is Done,
    ensures
        ({
            let end = grouped::groups_written(
                parent,
                names.skip(i),
                entries,
                subs,
                SyncMode::Reconcile,
                sofar,
                run.answers,
                at,
            );
            &&& at <= end->Done_1 <= run.answers.len()
            &&& underway(
                run.start(),
                parent,
                entries,
                names,
                names.len() as int,
                full,
                run.boards[end->Done_1],
            )
            &&& forall|n: int|
                end->Done_1 <= n <= run.answers.len() ==> grouped::groups_written(
                    parent,
                    names.skip(i),
                    entries,
                    subs,
                    SyncMode::Reconcile,
                    sofar,
                    #[trigger] run.answers.take(n),
                    at,
                ) == end
        }),
    decreases names.len() - i,
{
    let h = run.answers;
    let left = names.skip(i);
    let first = run.start();
    let b = run.boards[at];
    if left.len() == 0 {
        plan
    } else {
        let name = names[i];
        assert(left[0] == name);
        assert(left.skip(1) =~= names.skip(i + 1));
        grouped::lemma_titled(subs, name);
        let ensured = grouped::group_ensured(parent, name, subs, h, at);
        if titled_is_none(subs, name) {
            assert(at < h.len());
            assert(h.take(at).len() == at);
            assert(run.goes_well(at));
        }
        let mid = ensured->Done_1;
        let id = ensured->Done_0->0;
        assert(ensured is Done && ensured->Done_0 is Some);
        assert(at <= mid <= h.len());
        assert forall|n: int| mid <= n <= h.len() implies grouped::group_ensured(
            parent,
            name,
            subs,
            #[trigger] h.take(n),
            at,
        ) == ensured by {
            if titled_is_none(subs, name) {
                assert(h.take(n)[at] == h[at]);
            }
        }
        let named = grouped::naming(sofar, id);
        let group = grouped::in_group(entries, name);
        assert forall|n: int| mid <= n < h.len() implies board::asks(
            grouped::settled(id, group, SyncMode::Reconcile, named, #[trigger] h.take(n), mid),
            run.actions[n],
        ) by {
            assert(grouped::group_ensured(parent, name, subs, h.take(n), at) == ensured);
        }
        lemma_settled(run, id, group, named, mid);
        let m = run.boards[mid];
        let after = run.boards[mid + 2];
        lemma_ensured(run, parent, entries, names, i, subs, at, plan);
        assert forall|d: EpicId, e: EpicId| #[trigger]
            active(after, parent, d) && #[trigger] active(after, parent, e) && after.epics[d].title
                == after.epics[e].title implies d == e by {
            assert(active(m, parent, d) && active(m, parent, e));
        }
        lemma_one_more_repository(first, parent, entries, names, i, plan, b, id, after);
        let more = plan.insert(id, names_in(entries, name));
        let outcome = grouped::settled(id, group, SyncMode::Reconcile, named, h, mid)->Done_0;
        assert forall|n: int| mid + 2 <= n <= h.len() implies grouped::groups_written(
            parent,
            left,
            entries,
            subs,
            SyncMode::Reconcile,
            sofar,
            #[trigger] h.take(n),
            at,
        ) == grouped::groups_written(
            parent,
            names.skip(i + 1),
            entries,
            subs,
            SyncMode::Reconcile,
            outcome,
            h.take(n),
            mid + 2,
        ) by {
            assert(grouped::group_ensured(parent, name, subs, h.take(n), at) == ensured);
        }
        lemma_groups_written(
            run,
            parent,
            entries,
            names,
            i + 1,
            subs,
            outcome,
            mid + 2,
            more,
        )
    }
}

spec fn titled_is_none(subs: Seq<Epic>, name: Seq<char>) -> bool {
    grouped::titled(subs, name) is None
}

/// The epic of the next repository is there, it is not archived, and it has the title.
proof fn lemma_ensured(
    run: Run,
    parent: EpicId,
    entries: Seq<EntryView>,
    names: Seq<Seq<char>>,
    i: int,
    subs: Seq<Epic>,
    at: int,
    plan: Plan,
)
    requires
        run.is_smooth(),
        0 <= at <= run.answers.len(),
        0 <= i < names.len(),
        names.no_duplicates(),
        run.start().lists_epics(parent, subs),
        underway(run.start(), parent, entries, names, i, plan, run.boards[at]),
        grouped::titled(subs, names[i]) is None ==> at < run.answers.len() && run.actions[at] == (
        StoreActionView::CreateEpic { title: names[i], parent }),
    ensures
        ({
            let b = run.boards[at];
            let ensured = grouped::group_ensured(parent, names[i], subs, run.answers, at);
            let m = run.boards[ensured->Done_1];
            let id = ensured->Done_0->0;
            &&& ensured is Done
            &&& ensured->Done_0 is Some
            &&& m.tasks == b.tasks
            &&& active(m, parent, id)
            &&& m.epics[id].title == names[i]
            &&& titles_differ(m, parent)
            &&& forall|e: EpicId| #[trigger]
                b.epics.contains_key(e) ==> m.epics.contains_key(e) && m.epics[e] == b.epics[e]
            &&& forall|e: EpicId| #[trigger]
                m.epics.contains_key(e) && !b.epics.contains_key(e) ==> e == id
        }),
{
    let name = names[i];
    let first = run.start();
    let b = run.boards[at];
    grouped::lemma_titled(subs, name);
    match grouped::titled(subs, name) {
        Some(id) => {
            let k = choose|k: int|
                0 <= k < subs.len() && (#[trigger] subs[k]).id == id && subs[k].status
                    != crate::models::TaskStatus::Archived && subs[k].title@ == name;
            assert(first.shows(subs[k]) && first.is_child(id, parent));
            assert(first.epics.contains_key(id));
        },
        None => {
            assert(run.goes_well(at));
            let m = run.boards[at + 1];
            let id = run.answers[at].made()->Ok_0;
            assert forall|d: EpicId, e: EpicId| #[trigger]
                active(m, parent, d) && #[trigger] active(m, parent, e) && m.epics[d].title
                    == m.epics[e].title implies d == e by {
                lemma_title_is_new(first, parent, entries, names, i, plan, b, subs, d);
                lemma_title_is_new(first, parent, entries, names, i, plan, b, subs, e);
                if d != id && e != id {
                    assert(active(b, parent, d) && active(b, parent, e));
                }
            }
        },
    }
}

/// Where no sub-epic was found for a repository, none has its title yet.
proof fn lemma_title_is_new(
    first: Board,
    parent: EpicId,
    entries: Seq<EntryView>,
    names: Seq<Seq<char>>,
    i: int,
    plan: Plan,
    b: Board,
    subs: Seq<Epic>,
    e: EpicId,
)
    requires
        0 <= i < names.len(),
        names.no_duplicates(),
        first.lists_epics(parent, subs),
        underway(first, parent, entries, names, i, plan, b),
        grouped::titled(subs, names[i]) is None,
    ensures
        active(b, parent, e) ==> b.epics[e].title != names[i],
{
    if active(b, parent, e) && b.epics[e].title == names[i] {
        if first.epics.contains_key(e) {
            assert(first.is_child(e, parent));
            let k = choose|k: int| 0 <= k < subs.len() && (#[trigger] subs[k]).id == e;
            grouped::lemma_titled(subs, names[i]);
            assert(first.shows(subs[k]));
        } else {
            assert(b.epics.contains_key(e));
            assert(plan.contains_key(e));
            let j = choose|j: int| 0 <= j < names.take(i).len() && names.take(i)[j] == names[i];
            assert(names[j] == names[i]);
        }
    }
}

/// The epics are cleared.
proof fn lemma_cleared(
    run: Run,
    first: Map<TaskId, Held>,
    ids: Seq<EpicId>,
    sofar: OutcomeView,
    at: int,
    plan: Plan,
) -> (full: Plan)
    requires
        run.is_smooth(),
        0 <= at <= run.answers.len(),
        ids.no_duplicates(),
        forall|e: EpicId| #[trigger] ids.contains(e) ==> !plan.contains_key(e),
        board::synced(first, plan, true, run.boards[at].tasks),
        forall|n: int|
            at <= n < run.answers.len() ==> board::asks(
                grouped::cleared(ids, sofar, #[trigger] run.answers.take(n), at),
                run.actions[n],
            ),
        grouped::cleared(ids, sofar, run.answers, at) is Done,
    ensures
        ({
            let end = grouped::cleared(ids, sofar, run.answers, at);
            &&& at <= end->Done_1 <= run.answers.len()
            &&& run.boards[end->Done_1].epics == run.boards[at].epics
            &&& board::synced(first, full, true, run.boards[end->Done_1].tasks)
            &&& forall|n: int|
                end->Done_1 <= n <= run.answers.len() ==> grouped::cleared(
                    ids,
                    sofar,
                    #[trigger] run.answers.take(n),
                    at,
                ) == end
        }),
        forall|e: EpicId| #[trigger]
            full.contains_key(e) == (plan.contains_key(e) || ids.contains(e)),
        forall|e: EpicId| #[trigger]
            full.contains_key(e) ==> full[e] == (if ids.contains(e) {
                Seq::empty()
            } else {
                plan[e]
            }),
    decreases ids.len(),
{
    let h = run.answers;
    if ids.len() == 0 {
        plan
    } else {
        let id = ids[0];
        let none = Seq::<EntryView>::empty();
        let rest = ids.skip(1);
        let named = grouped::naming(sofar, id);
        assert forall|n: int| at <= n < h.len() implies board::asks(
            grouped::settled(id, none, SyncMode::Reconcile, named, #[trigger] h.take(n), at),
            run.actions[n],
        ) by {
            assert(board::asks(grouped::cleared(ids, sofar, h.take(n), at), run.actions[n]));
        }
        lemma_settled(run, id, none, named, at);
        let outcome = grouped::settled(id, none, SyncMode::Reconcile, named, h, at)->Done_0;
        assert(store::names_of(none) =~= Seq::empty());
        assert(ids.contains(id));
        board::lemma_one_more_epic(
            first,
            plan,
            run.boards[at].tasks,
            id,
            Seq::empty(),
            run.boards[at + 2].tasks,
        );
        let more = plan.insert(id, Seq::empty());
        assert forall|e: EpicId| #[trigger] ids.contains(e) == (e == id || rest.contains(e)) by {
            if ids.contains(e) && e != id {
                let j = choose|j: int| 0 <= j < ids.len() && ids[j] == e;
                assert(rest[j - 1] == e);
            }
            if rest.contains(e) {
                let j = choose|j: int| 0 <= j < rest.len() && rest[j] == e;
                assert(ids[j + 1] == e);
            }
        }
        assert forall|e: EpicId| #[trigger] rest.contains(e) implies !more.contains_key(e) by {
            assert(ids.contains(e));
            if e == id {
                let j = choose|j: int| 0 <= j < rest.len() && rest[j] == e;
                assert(ids[j + 1] == ids[0]);
            }
        }
        assert(rest.no_duplicates()) by {
            assert forall|i: int, j: int|
                0 <= i < rest.len() && 0 <= j < rest.len() && i != j implies rest[i]
                != rest[j] by {
                assert(ids[i + 1] != ids[j + 1]);
            }
        }
        assert forall|n: int| at + 2 <= n <= h.len() implies grouped::cleared(
            ids,
            sofar,
            #[trigger] h.take(n),
            at,
        ) == grouped::cleared(rest, outcome, h.take(n), at + 2) by {
            assert(grouped::settled(id, none, SyncMode::Reconcile, named, h.take(n), at)
                == grouped::settled(id, none, SyncMode::Reconcile, named, h, at));
        }
        assert(h.take(h.len() as int) =~= h);
        let full = lemma_cleared(run, first, rest, outcome, at + 2, more);
        assert forall|e: EpicId| #[trigger] full.contains_key(e) == (plan.contains_key(e)
            || ids.contains(e)) by {
            assert(ids.contains(e) == (e == id || rest.contains(e)));
        }
        assert forall|e: EpicId| #[trigger] full.contains_key(e) implies full[e] == (if ids.contains(
            e,
        ) {
            Seq::empty()
        } else {
            plan[e]
        }) by {
            assert(ids.contains(e) == (e == id || rest.contains(e)));
        }
        full
    }
}

/// What the whole sync did, as one plan: every sub-epic that is not archived holds its
/// repository's items, and the parent holds none.
proof fn lemma_grouped(parent: EpicId, entries: Seq<EntryView>, run: Run) -> (full: Plan)
    requires
        is_run(parent, entries, run),
        run.start().sound(),
        run.start().epics.contains_key(parent),
        titles_differ(run.start(), parent),
    ensures
        board::synced(run.start().tasks, full, true, run.end().tasks),
        titles_differ(run.end(), parent),
        forall|e: EpicId| #[trigger]
            run.start().epics.contains_key(e) ==> run.end().epics.contains_key(e)
                && run.end().epics[e] == run.start().epics[e],
        forall|e: EpicId| #[trigger]
            full.contains_key(e) == (e == parent || active(run.end(), parent, e)),
        forall|e: EpicId| #[trigger]
            full.contains_key(e) ==> full[e] == (if e == parent {
                Seq::empty()
            } else {
                names_in(entries, run.end().epics[e].title)
            }),
        forall|j: int|
            0 <= j < grouped::group_names(entries).len() ==> exists|e: EpicId| #[trigger]
                active(run.end(), parent, e) && run.end().epics[e].title
                    == #[trigger] grouped::group_names(entries)[j],
{
    let h = run.answers;
    let first = run.start();
    let names = grouped::group_names(entries);
    let nothing = OutcomeView { affected_epics: seq![parent], removed: Seq::empty() };
    grouped::groups_part_the_entries(entries);
    assert(h.len() > 0);
    assert(h.take(0).len() == 0);
    assert(run.goes_well(0));
    let subs = h[0].epics()->Ok_0;
    assert(run.boards[1] == first);
    assert(h.take(h.len() as int) =~= h);
    let start = Map::<EpicId, Seq<Seq<char>>>::empty();
    board::lemma_nothing_planned(first.tasks);
    assert(underway(first, parent, entries, names, 0, start, first));
    assert(names.skip(0) =~= names);
    assert forall|n: int| 1 <= n < h.len() implies board::asks(
        grouped::groups_written(
            parent,
            names,
            entries,
            subs,
            SyncMode::Reconcile,
            nothing,
            #[trigger] h.take(n),
            1,
        ),
        run.actions[n],
    ) by {
        assert(h.take(n)[0] == h[0]);
    }
    let plan = lemma_groups_written(run, parent, entries, names, 0, subs, nothing, 1, start);
    let written = grouped::groups_written(
        parent,
        names,
        entries,
        subs,
        SyncMode::Reconcile,
        nothing,
        h,
        1,
    );
    let mid = written->Done_1;
    let b = run.boards[mid];
    let gone = grouped::dropped(subs, names);
    assert forall|n: int| mid <= n < h.len() implies board::asks(
        grouped::cleared(gone, written->Done_0, #[trigger] h.take(n), mid),
        run.actions[n],
    ) by {
        assert(h.take(n)[0] == h[0]);
    }
    grouped::lemma_dropped_once(subs, names);
    assert(names.take(names.len() as int) =~= names);
    assert forall|e: EpicId| #[trigger] gone.contains(e) implies active(b, parent, e)
        && !names.contains(b.epics[e].title) && first.epics.contains_key(e) by {
        grouped::lemma_dropped(subs, names, e);
        let k = choose|k: int|
            0 <= k < subs.len() && (#[trigger] subs[k]).id == e && subs[k].status
                != crate::models::TaskStatus::Archived && !names.contains(subs[k].title@);
        assert(first.shows(subs[k]) && first.is_child(e, parent));
    }
    assert forall|e: EpicId| #[trigger] gone.contains(e) implies !plan.contains_key(e) by {
        assert(active(b, parent, e));
    }
    let more = lemma_cleared(run, first.tasks, gone, written->Done_0, mid, plan);
    let cleared = grouped::cleared(gone, written->Done_0, h, mid);
    let last = cleared->Done_1;
    let none = Seq::<EntryView>::empty();
    assert forall|n: int| last <= n < h.len() implies grouped::settled(
        parent,
        none,
        SyncMode::Reconcile,
        cleared->Done_0,
        #[trigger] h.take(n),
        last,
    ) == SyncStepView::<OutcomeView>::Ask(run.actions[n]) by {
        assert(h.take(n)[0] == h[0]);
        assert(grouped::cleared(gone, written->Done_0, h.take(n), mid) == cleared);
    }
    lemma_settled(run, parent, none, cleared->Done_0, last);
    assert(last + 2 == h.len()) by {
        if last + 2 < h.len() {
            let g = h.take(last + 2);
            assert(grouped::settled(parent, none, SyncMode::Reconcile, cleared->Done_0, g, last)
                is Done);
        }
    }
    assert(run.end() == run.boards[last + 2]);
    assert(store::names_of(none) =~= Seq::empty());
    assert(!b.is_child(parent, parent)) by {
        assert(!first.is_child(parent, parent));
    }
    assert(!more.contains_key(parent)) by {
        if more.contains_key(parent) {
            assert(active(b, parent, parent));
        }
    }
    board::lemma_one_more_epic(
        first.tasks,
        more,
        run.boards[last].tasks,
        parent,
        Seq::empty(),
        run.end().tasks,
    );
    let full = more.insert(parent, Seq::empty());
    let end = run.end();
    assert(end.epics == b.epics);
    assert forall|d: EpicId, e: EpicId| #[trigger]
        active(end, parent, d) && #[trigger] active(end, parent, e) && end.epics[d].title
            == end.epics[e].title implies d == e by {
        assert(active(b, parent, d) && active(b, parent, e));
    }
    assert forall|e: EpicId| #[trigger] full.contains_key(e) == (e == parent || active(
        end,
        parent,
        e,
    )) by {
        if full.contains_key(e) && e != parent {
            assert(more.contains_key(e));
            assert(active(b, parent, e));
        }
        if active(end, parent, e) {
            assert(active(b, parent, e));
            lemma_is_seen_to(first, parent, entries, names, plan, b, subs, e);
            assert(more.contains_key(e));
        }
    }
    assert forall|e: EpicId| #[trigger] full.contains_key(e) implies full[e] == (if e == parent {
        Seq::empty()
    } else {
        names_in(entries, end.epics[e].title)
    }) by {
        if e != parent {
            assert(more.contains_key(e));
            if gone.contains(e) {
                lemma_no_items(entries, b.epics[e].title);
            }
        }
    }
    assert forall|j: int| 0 <= j < names.len() implies exists|e: EpicId| #[trigger]
        active(end, parent, e) && end.epics[e].title == #[trigger] names[j] by {
        let e = choose|e: EpicId| plan.contains_key(e) && (#[trigger] b.epics[e]).title == names[j];
        assert(active(b, parent, e));
        assert(active(end, parent, e));
    }
    full
}

/// A sub-epic that is not archived was written or is to be cleared.
proof fn lemma_is_seen_to(
    first: Board,
    parent: EpicId,
    entries: Seq<EntryView>,
    names: Seq<Seq<char>>,
    plan: Plan,
    b: Board,
    subs: Seq<Epic>,
    e: EpicId,
)
    requires
        first.lists_epics(parent, subs),
        underway(first, parent, entries, names, names.len() as int, plan, b),
        active(b, parent, e),
    ensures
        plan.contains_key(e) || grouped::dropped(subs, names).contains(e),
{
    assert(b.epics.contains_key(e));
    if first.epics.contains_key(e) {
        assert(first.is_child(e, parent));
        let k = choose|k: int| 0 <= k < subs.len() && (#[trigger] subs[k]).id == e;
        assert(first.shows(subs[k]));
        let title = b.epics[e].title;
        if names.contains(title) {
            let j = choose|j: int| 0 <= j < names.len() && names[j] == title;
            let d = choose|d: EpicId|
                plan.contains_key(d) && (#[trigger] b.epics[d]).title == names[j];
            assert(active(b, parent, d));
        } else {
            grouped::lemma_dropped(subs, names, e);
        }
    }
}

proof fn lemma_no_items(entries: Seq<EntryView>, repo: Seq<char>)
    requires
        !grouped::group_names(entries).contains(repo),
    ensures
        names_in(entries, repo) == Seq::<Seq<char>>::empty(),
{
    grouped::groups_part_the_entries(entries);
    let group = grouped::in_group(entries, repo);
    if group.len() > 0 {
        assert(group.contains(group[0]));
        let i = choose|i: int| 0 <= i < entries.len() && entries[i] == group[0];
        assert(entries[i] == group[0]);
    }
    assert(names_in(entries, repo) =~= Seq::empty());
}

/// Each repository of an emission has one sub-epic that is not archived and has its
/// title; and every sub-epic that is not archived holds one feed task for each item of
/// its repository, and no other, so that one without an item in the emission holds none.
/// The parent holds none either. No epic is gone or changed, and an archived one is
/// neither used nor cleared: what is not a feed task of the parent or of a sub-epic that
/// is not archived is as it was, tasks made by hand among it. A task whose item is in
/// the emission of its own repository is the same task, with the work on it.
pub proof fn each_repository_gets_its_items(parent: EpicId, entries: Seq<EntryView>, run: Run)
    requires
        is_run(parent, entries, run),
        run.start().sound(),
        run.start().epics.contains_key(parent),
        titles_differ(run.start(), parent),
        names_differ(run.start(), parent),
    ensures
        forall|i: int|
            0 <= i < grouped::group_names(entries).len() ==> exists|e: EpicId| #[trigger]
                active(run.end(), parent, e) && run.end().epics[e].title
                    == #[trigger] grouped::group_names(entries)[i],
        titles_differ(run.end(), parent),
        forall|e: EpicId| #[trigger]
            active(run.end(), parent, e) ==> holds_exactly(
                run.end().tasks,
                e,
                names_in(entries, run.end().epics[e].title),
            ),
        forall|t: TaskId, n: Seq<char>| !#[trigger] board::lies(run.end().tasks, t, parent, n),
        forall|e: EpicId| #[trigger]
            run.start().epics.contains_key(e) ==> run.end().epics.contains_key(e)
                && run.end().epics[e] == run.start().epics[e],
        forall|t: TaskId|
            !is_fed(run.end(), parent, run.start().tasks[t])
                && #[trigger] run.start().tasks.contains_key(t) ==> run.end().tasks.contains_key(t)
                && run.end().tasks[t] == run.start().tasks[t],
        forall|t: TaskId|
            !is_fed(run.end(), parent, run.end().tasks[t]) && #[trigger] run.end().tasks.contains_key(
                t,
            ) ==> run.start().tasks.contains_key(t) && run.end().tasks[t] == run.start().tasks[t],
        forall|t: TaskId, e: EpicId, n: Seq<char>| #[trigger]
            board::lies(run.start().tasks, t, e, n) && active(run.end(), parent, e) && names_in(
                entries,
                run.end().epics[e].title,
            ).contains(n) ==> run.end().tasks.contains_key(t) && board::kept(
                run.start().tasks[t],
                run.end().tasks[t],
            ),
{
    let full = lemma_grouped(parent, entries, run);
    let first = run.start();
    let end = run.end();
    assert forall|e: EpicId| #[trigger] active(end, parent, e) implies holds_exactly(
        end.tasks,
        e,
        names_in(entries, end.epics[e].title),
    ) by {
        let names = names_in(entries, end.epics[e].title);
        assert(full.contains_key(e));
        assert(e != parent) by {
            if e == parent {
                assert(first.epics.contains_key(parent));
                assert(first.is_child(parent, parent));
            }
        }
        assert(full[e] == names);
        assert forall|t: TaskId, n: Seq<char>| #[trigger]
            board::lies(end.tasks, t, e, n) implies names.contains(n) by {
            assert(board::comes_from(first.tasks, full, true, t, end.tasks[t]));
        }
        assert forall|n: Seq<char>| #[trigger] names.contains(n) implies exists|t: TaskId| #[trigger]
            board::lies(end.tasks, t, e, n) by {
            assert(full[e].contains(n));
        }
        assert forall|s: TaskId, t: TaskId, n: Seq<char>| #[trigger]
            board::lies(end.tasks, s, e, n) && #[trigger] board::lies(end.tasks, t, e, n) implies s
            == t by {
            lemma_same_task(first, parent, full, end, e, s, t, n);
        }
    }
    assert forall|t: TaskId, n: Seq<char>| !#[trigger] board::lies(end.tasks, t, parent, n) by {
        assert(full.contains_key(parent));
        if board::lies(end.tasks, t, parent, n) {
            assert(board::comes_from(first.tasks, full, true, t, end.tasks[t]));
        }
    }
    assert forall|t: TaskId|
        !is_fed(end, parent, first.tasks[t]) && #[trigger] first.tasks.contains_key(
            t,
        ) implies end.tasks.contains_key(t) && end.tasks[t] == first.tasks[t] by {
        assert(board::spared(first.tasks[t], full, true));
    }
    assert forall|t: TaskId|
        !is_fed(end, parent, end.tasks[t]) && #[trigger] end.tasks.contains_key(
            t,
        ) implies first.tasks.contains_key(t) && end.tasks[t] == first.tasks[t] by {
        assert(board::comes_from(first.tasks, full, true, t, end.tasks[t]));
        if end.tasks[t].epic is Some {
            assert(full.contains_key(end.tasks[t].epic->0) == (end.tasks[t].epic->0 == parent
                || active(end, parent, end.tasks[t].epic->0)));
        }
    }
    assert forall|t: TaskId, e: EpicId, n: Seq<char>| #[trigger]
        board::lies(first.tasks, t, e, n) && active(end, parent, e) && names_in(
            entries,
            end.epics[e].title,
        ).contains(n) implies end.tasks.contains_key(t) && board::kept(
        first.tasks[t],
        end.tasks[t],
    ) by {
        assert(full.contains_key(e));
        assert(e != parent) by {
            if e == parent {
                assert(first.is_child(parent, parent));
            }
        }
        assert(board::listed(first.tasks[t], full));
    }
}

/// Is it a feed task of the parent or of a sub-epic that is not archived?
pub open spec fn is_fed(b: Board, parent: EpicId, row: Held) -> bool {
    row.name is Some && (row.epic matches Some(e) && (e == parent || active(b, parent, e)))
}

/// Two tasks under one name in a written epic are the same.
proof fn lemma_same_task(
    first: Board,
    parent: EpicId,
    full: Plan,
    end: Board,
    e: EpicId,
    s: TaskId,
    t: TaskId,
    n: Seq<char>,
)
    requires
        board::synced(first.tasks, full, true, end.tasks),
        full.contains_key(e),
        first.epics.contains_key(e) ==> end.epics.contains_key(e) && first.epics[e] == end.epics[e],
        active(end, parent, e),
        first.sound(),
        names_differ(first, parent),
        board::lies(end.tasks, s, e, n),
        board::lies(end.tasks, t, e, n),
    ensures
        s == t,
{
    assert(board::comes_from(first.tasks, full, true, s, end.tasks[s]));
    assert(board::comes_from(first.tasks, full, true, t, end.tasks[t]));
    if !board::made(first.tasks, end.tasks[s]) {
        assert(board::lies(first.tasks, s, e, n));
        assert(board::lies(first.tasks, t, e, n));
        assert(first.has_a_place(s));
        assert(first.is_child(e, parent));
    }
}

/// A sync by repository that is to remove nothing leaves every task on the board, under
/// its name and with the work on it.
pub proof fn additive_grouped_sync_keeps_every_task(parent: EpicId, entries: Seq<EntryView>, run: Run)
    requires
        run.is_smooth(),
        forall|n: int|
            0 <= n < run.answers.len() ==> grouped::grouped(
                parent,
                entries,
                SyncMode::Additive,
                #[trigger] run.answers.take(n),
            ) == SyncStepView::<OutcomeView>::Ask(run.actions[n]),
    ensures
        board::keeps_every_task(run.start(), run.end()),
{
    assert forall|n: int| 0 <= n < run.answers.len() implies !(
    #[trigger] run.actions[n]).removes() by {
        assert(grouped::grouped(parent, entries, SyncMode::Additive, run.answers.take(n))
            == SyncStepView::<OutcomeView>::Ask(run.actions[n]));
        grouped::additive_grouped_sync_removes_nothing(parent, entries, run.answers.take(n));
    }
    board::lemma_run_keeps(run, run.answers.len() as int);
}

} // verus!

//! What a sync of a reviews emission makes of the board.

use vstd::prelude::*;

use crate::feed::board;
use crate::feed::board::{Board, Plan, Run};
use crate::feed::entries::{EntryView, SyncMode};
use crate::feed::ingest::index;
use crate::feed::ingest::index::{IndexView, KnownView};
use crate::feed::ingest::role_routed;
use crate::feed::ingest::role_routed::Opened;
use crate::feed::ingest::roles;
use crate::feed::ingest::roles::RolesView;
use crate::feed::ingest::routing as placing;
use crate::feed::ingest::routing::{GroupView, RoutedView};
use crate::feed::repos;
use crate::feed::routing;
use crate::feed::store;
use crate::feed::store::{OutcomeView, StoreActionView, SyncStepView};
use crate::models::{Epic, EpicId, FeedItemView, FeedRole, Task, TaskId};

verus! {

/// Is it right below one of the roles?
pub open spec fn below(b: Board, roles: Seq<EpicId>, e: EpicId) -> bool {
    b.epics.contains_key(e) && (b.epics[e].parent matches Some(r) && roles.contains(r))
}

/// Is it a role, or right below one?
pub open spec fn within(b: Board, roles: Seq<EpicId>, e: EpicId) -> bool {
    roles.contains(e) || below(b, roles, e)
}

/// Is it in the reviews subtree: the parent, a role, or right below one?
pub open spec fn in_reviews(b: Board, parent: EpicId, roles: Seq<EpicId>, e: EpicId) -> bool {
    e == parent || within(b, roles, e)
}

/// The first epic with a role is one of them, and has it.
proof fn lemma_with_role(epics: Seq<Epic>, role: FeedRole)
    ensures
        roles::with_role(epics, role) matches Some(id) ==> exists|k: int|
            0 <= k < epics.len() && (#[trigger] epics[k]).id == id && epics[k].feed_role == role,
    decreases epics.len(),
{
    if epics.len() > 0 && epics[0].feed_role != role {
        let rest = epics.skip(1);
        lemma_with_role(rest, role);
        match roles::with_role(rest, role) {
            Some(id) => {
                let k = choose|k: int|
                    0 <= k < rest.len() && (#[trigger] rest[k]).id == id && rest[k].feed_role
                        == role;
                assert(epics[k + 1].id == id);
            },
            None => {},
        }
    }
}

/// What is so of the board while the roles are found or made.
spec fn is_ready(first: Board, parent: EpicId, b: Board) -> bool {
    &&& b.sound()
    &&& b.tasks == first.tasks
    &&& board::grown(first, b)
    &&& b.epics.contains_key(parent)
}

proof fn lemma_ensured(
    run: Run,
    parent: EpicId,
    subs: Seq<Epic>,
    role: FeedRole,
    at: int,
)
    requires
        run.is_smooth(),
        0 <= at <= run.answers.len(),
        run.start().lists_epics(parent, subs),
        is_ready(run.start(), parent, run.boards[at]),
        forall|n: int|
            at <= n < run.answers.len() ==> board::asks(
                roles::ensured(parent, subs, role, #[trigger] run.answers.take(n), at),
                run.actions[n],
            ),
        roles::ensured(parent, subs, role, run.answers, at) is Done,
    ensures
        ({
            let end = roles::ensured(parent, subs, role, run.answers, at);
            let b = run.boards[end->Done_1];
            &&& at <= end->Done_1 <= run.answers.len()
            &&& is_ready(run.start(), parent, b)
            &&& board::grown(run.boards[at], b)
            &&& b.is_child(end->Done_0, parent)
            &&& b.epics[end->Done_0].role == role
            &&& forall|n: int|
                end->Done_1 <= n <= run.answers.len() ==> roles::ensured(
                    parent,
                    subs,
                    role,
                    #[trigger] run.answers.take(n),
                    at,
                ) == end
        }),
{
    let h = run.answers;
    let first = run.start();
    let b = run.boards[at];
    lemma_with_role(subs, role);
    match roles::with_role(subs, role) {
        Some(id) => {
            let k = choose|k: int|
                0 <= k < subs.len() && (#[trigger] subs[k]).id == id && subs[k].feed_role == role;
            assert(first.shows(subs[k]) && first.is_child(id, parent));
            assert(first.epics.contains_key(id));
        },
        None => {
            assert(at < h.len());
            assert(h.take(at).len() == at);
            assert(run.goes_well(at));
            let id = h[at].made()->Ok_0;
            assert(at + 1 < h.len());
            assert(h.take(at + 1)[at] == h[at]);
            assert(run.goes_well(at + 1));
            let mid = run.boards[at + 1];
            board::lemma_sound_with_epic(b, id, mid.epics[id], parent);
            assert(b.with_epic(id, mid.epics[id]) == mid);
            let end = run.boards[at + 2];
            board::lemma_sound_with_epic(mid, id, end.epics[id], parent);
            assert(mid.with_epic(id, end.epics[id]) == end);
            assert forall|n: int| at + 2 <= n <= h.len() implies roles::ensured(
                parent,
                subs,
                role,
                #[trigger] h.take(n),
                at,
            ) == roles::ensured(parent, subs, role, h, at) by {
                assert(h.take(n)[at] == h[at]);
                assert(h.take(n)[at + 1] == h[at + 1]);
            }
        },
    }
}

/// The three roles are found or made; they are different sub-epics of the parent, and no
/// task is touched.
proof fn lemma_roles(run: Run, parent: EpicId)
    requires
        run.is_smooth(),
        run.start().sound(),
        run.start().epics.contains_key(parent),
        forall|n: int|
            0 <= n < run.answers.len() ==> board::asks(
                roles::roles_ensured(parent, #[trigger] run.answers.take(n), 0),
                run.actions[n],
            ),
        roles::roles_ensured(parent, run.answers, 0) is Done,
    ensures
        ({
            let end = roles::roles_ensured(parent, run.answers, 0);
            let b = run.boards[end->Done_1];
            &&& 0 <= end->Done_1 <= run.answers.len()
            &&& is_ready(run.start(), parent, b)
            &&& have_roles(b, parent, end->Done_0)
            &&& forall|n: int|
                end->Done_1 <= n <= run.answers.len() ==> roles::roles_ensured(
                    parent,
                    #[trigger] run.answers.take(n),
                    0,
                ) == end
        }),
{
    let h = run.answers;
    assert(h.len() > 0);
    assert(h.take(0).len() == 0);
    assert(run.goes_well(0));
    let subs = h[0].epics()->Ok_0;
    assert forall|n: int| 1 <= n <= h.len() implies (#[trigger] h.take(n))[0] == h[0] by {}
    assert(h.take(h.len() as int) =~= h);
    assert forall|n: int| 1 <= n < h.len() implies board::asks(
        roles::ensured(parent, subs, FeedRole::MyReviews, #[trigger] h.take(n), 1),
        run.actions[n],
    ) by {
        assert(board::asks(roles::roles_ensured(parent, h.take(n), 0), run.actions[n]));
    }
    lemma_ensured(run, parent, subs, FeedRole::MyReviews, 1);
    let my = roles::ensured(parent, subs, FeedRole::MyReviews, h, 1);
    let at1 = my->Done_1;
    assert forall|n: int| at1 <= n < h.len() implies board::asks(
        roles::ensured(parent, subs, FeedRole::TeamReviews, #[trigger] h.take(n), at1),
        run.actions[n],
    ) by {
        assert(board::asks(roles::roles_ensured(parent, h.take(n), 0), run.actions[n]));
    }
    lemma_ensured(run, parent, subs, FeedRole::TeamReviews, at1);
    let team = roles::ensured(parent, subs, FeedRole::TeamReviews, h, at1);
    let at2 = team->Done_1;
    assert forall|n: int| at2 <= n < h.len() implies board::asks(
        roles::ensured(parent, subs, FeedRole::Bots, #[trigger] h.take(n), at2),
        run.actions[n],
    ) by {
        assert(board::asks(roles::roles_ensured(parent, h.take(n), 0), run.actions[n]));
    }
    lemma_ensured(run, parent, subs, FeedRole::Bots, at2);
    let bots = roles::ensured(parent, subs, FeedRole::Bots, h, at2);
    let at3 = bots->Done_1;
    assert forall|n: int| at3 <= n <= h.len() implies roles::roles_ensured(
        parent,
        #[trigger] h.take(n),
        0,
    ) == roles::roles_ensured(parent, h, 0) by {
        assert(h.take(n)[0] == h[0]);
        assert(roles::ensured(parent, subs, FeedRole::MyReviews, h.take(n), 1) == my);
        assert(roles::ensured(parent, subs, FeedRole::TeamReviews, h.take(n), at1) == team);
        assert(roles::ensured(parent, subs, FeedRole::Bots, h.take(n), at2) == bots);
    }
}

/// Does each role have its own sub-epic of the parent?
pub open spec fn have_roles(b: Board, parent: EpicId, to: RolesView) -> bool {
    &&& b.is_child(to.my, parent) && b.epics[to.my].role == FeedRole::MyReviews
    &&& b.is_child(to.team, parent) && b.epics[to.team].role == FeedRole::TeamReviews
    &&& b.is_child(to.bots, parent) && b.epics[to.bots].role == FeedRole::Bots
}

/// The feed tasks among an epic's tasks are those of the board.
proof fn lemma_feed_tasks(b: Board, epic: EpicId, tasks: Seq<Task>)
    requires
        forall|i: int|
            0 <= i < tasks.len() ==> {
                let task = #[trigger] tasks[i];
                &&& b.tasks.contains_key(task.id)
                &&& b.tasks[task.id].epic == Some(epic)
                &&& b.tasks[task.id].name == crate::models::opt_text(task.external_id)
                &&& task.epic_id == Some(epic)
            },
    ensures
        forall|i: int|
            0 <= i < index::feed_tasks(tasks).len() ==> is_known(
                b,
                #[trigger] index::feed_tasks(tasks)[i],
            ) && index::feed_tasks(tasks)[i].epic_id == Some(epic),
        forall|i: int|
            0 <= i < tasks.len() && (#[trigger] tasks[i]).external_id is Some ==> lists(
                index::feed_tasks(tasks),
                tasks[i].id,
            ),
    decreases tasks.len(),
{
    if tasks.len() > 0 {
        let before = tasks.drop_last();
        let sofar = index::feed_tasks(before);
        let all = index::feed_tasks(tasks);
        assert forall|i: int| 0 <= i < before.len() implies #[trigger] before[i] == tasks[i] by {}
        lemma_feed_tasks(b, epic, before);
        let last = tasks[tasks.len() - 1];
        assert forall|i: int| 0 <= i < all.len() implies is_known(b, #[trigger] all[i])
            && all[i].epic_id == Some(epic) by {
            if i < sofar.len() {
                assert(all[i] == sofar[i]);
            }
        }
        assert forall|i: int|
            0 <= i < tasks.len() && (#[trigger] tasks[i]).external_id is Some implies lists(
            all,
            tasks[i].id,
        ) by {
            if i < before.len() {
                assert(before[i] == tasks[i]);
                let j = choose|j: int| 0 <= j < sofar.len() && (#[trigger] sofar[j]).id == tasks[i].id;
                assert(all[j].id == tasks[i].id);
            } else {
                assert(all[sofar.len() as int].id == tasks[i].id);
            }
        }
    }
}

/// Does the board hold the known task where it is said to be?
spec fn is_known(b: Board, k: KnownView) -> bool {
    k.epic_id is Some && board::lies(b.tasks, k.id, k.epic_id->0, k.external_id)
}

/// Is the task among the known ones?
spec fn lists(known: Seq<KnownView>, t: TaskId) -> bool {
    exists|i: int| 0 <= i < known.len() && (#[trigger] known[i]).id == t
}

/// What a walk through some epics added: tasks that they hold, and all of them.
spec fn added(b: Board, before: Seq<KnownView>, after: Seq<KnownView>, ids: Set<EpicId>) -> bool {
    &&& before.len() <= after.len()
    &&& forall|i: int| 0 <= i < before.len() ==> #[trigger] after[i] == before[i]
    &&& forall|i: int|
        before.len() <= i < after.len() ==> is_known(b, #[trigger] after[i]) && ids.contains(
            after[i].epic_id->0,
        )
    &&& forall|t: TaskId, e: EpicId, n: Seq<char>| #[trigger]
        board::lies(b.tasks, t, e, n) && ids.contains(e) ==> lists(after, t)
}

proof fn lemma_scanned(run: Run, ids: Seq<EpicId>, found: IndexView, at: int)
    requires
        run.is_smooth(),
        0 <= at <= run.answers.len(),
        forall|n: int|
            at <= n < run.answers.len() ==> board::asks(
                index::scanned(ids, found, #[trigger] run.answers.take(n), at),
                run.actions[n],
            ),
        index::scanned(ids, found, run.answers, at) is Done,
    ensures
        ({
            let end = index::scanned(ids, found, run.answers, at);
            &&& at <= end->Done_1 <= run.answers.len()
            &&& run.boards[end->Done_1] == run.boards[at]
            &&& end->Done_0.groups == found.groups
            &&& added(run.boards[at], found.known, end->Done_0.known, ids.to_set())
            &&& forall|n: int|
                end->Done_1 <= n <= run.answers.len() ==> index::scanned(
                    ids,
                    found,
                    #[trigger] run.answers.take(n),
                    at,
                ) == end
        }),
    decreases ids.len(),
{
    let h = run.answers;
    let b = run.boards[at];
    if ids.len() > 0 {
        assert(at < h.len());
        assert(h.take(at).len() == at);
        assert(run.goes_well(at));
        let tasks = h[at].tasks()->Ok_0;
        assert(b.lists_tasks(ids[0], tasks));
        let here = index::feed_tasks(tasks);
        let more = IndexView { known: found.known + here, groups: found.groups };
        let rest = ids.skip(1);
        assert forall|n: int| at + 1 <= n <= h.len() implies index::scanned(
            ids,
            found,
            #[trigger] h.take(n),
            at,
        ) == index::scanned(rest, more, h.take(n), at + 1) by {
            assert(h.take(n)[at] == h[at]);
        }
        assert(h.take(h.len() as int) =~= h);
        lemma_scanned(run, rest, more, at + 1);
        let all = index::scanned(ids, found, h, at)->Done_0.known;
        lemma_feed_tasks(b, ids[0], tasks);
        assert forall|i: int| 0 <= i < found.known.len() implies #[trigger] all[i]
            == found.known[i] by {
            assert(all[i] == more.known[i]);
        }
        assert forall|i: int| found.known.len() <= i < all.len() implies is_known(
            b,
            #[trigger] all[i],
        ) && ids.to_set().contains(all[i].epic_id->0) by {
            if i < more.known.len() {
                assert(all[i] == more.known[i]);
                assert(all[i] == here[i - found.known.len()]);
                assert(ids[0] == all[i].epic_id->0);
                assert(ids.contains(ids[0]));
            } else {
                let e = all[i].epic_id->0;
                assert(rest.to_set().contains(e));
                assert(rest.contains(e));
                let j = choose|j: int| 0 <= j < rest.len() && rest[j] == e;
                assert(ids[j + 1] == e);
            }
        }
        assert forall|t: TaskId, e: EpicId, n: Seq<char>| #[trigger]
            board::lies(b.tasks, t, e, n) && ids.to_set().contains(e) implies lists(all, t) by {
            assert(ids.contains(e));
            if e == ids[0] {
                assert(b.tasks.contains_key(t));
                let i = choose|i: int| 0 <= i < tasks.len() && (#[trigger] tasks[i]).id == t;
                assert(tasks[i].external_id is Some);
                let j = choose|j: int| 0 <= j < here.len() && (#[trigger] here[j]).id == t;
                assert(more.known[found.known.len() + j].id == t);
                assert(all[found.known.len() + j].id == t);
            } else {
                let j = choose|j: int| 0 <= j < ids.len() && ids[j] == e;
                assert(rest[j - 1] == e);
                assert(rest.to_set().contains(e));
            }
        }
    }
}

/// The epics right below the roles.
spec fn groups_of(b: Board, roles: Seq<EpicId>) -> Set<EpicId> {
    Set::new(|e: EpicId| below(b, roles, e))
}

proof fn lemma_groups_scanned(run: Run, roles: Seq<EpicId>, found: IndexView, at: int)
    requires
        run.is_smooth(),
        0 <= at <= run.answers.len(),
        forall|n: int|
            at <= n < run.answers.len() ==> board::asks(
                index::groups_scanned(roles, found, #[trigger] run.answers.take(n), at),
                run.actions[n],
            ),
        index::groups_scanned(roles, found, run.answers, at) is Done,
    ensures
        ({
            let end = index::groups_scanned(roles, found, run.answers, at);
            &&& at <= end->Done_1 <= run.answers.len()
            &&& run.boards[end->Done_1] == run.boards[at]
            &&& added(
                run.boards[at],
                found.known,
                end->Done_0.known,
                groups_of(run.boards[at], roles),
            )
            &&& forall|n: int|
                end->Done_1 <= n <= run.answers.len() ==> index::groups_scanned(
                    roles,
                    found,
                    #[trigger] run.answers.take(n),
                    at,
                ) == end
        }),
    decreases roles.len(),
{
    let h = run.answers;
    let b = run.boards[at];
    let ids = groups_of(b, roles);
    if roles.len() > 0 {
        assert(at < h.len());
        assert(h.take(at).len() == at);
        assert(run.goes_well(at));
        let role = roles[0];
        let children = h[at].epics()->Ok_0;
        assert(b.lists_epics(role, children));
        let below_role = index::epic_ids(children);
        let rest = roles.skip(1);
        assert forall|n: int| at + 1 <= n < h.len() implies board::asks(
            index::scanned(below_role, found, #[trigger] h.take(n), at + 1),
            run.actions[n],
        ) by {
            assert(h.take(n)[at] == h[at]);
        }
        lemma_scanned(run, below_role, found, at + 1);
        let here = index::scanned(below_role, found, h, at + 1);
        let mid = here->Done_1;
        let more = IndexView {
            known: here->Done_0.known,
            groups: here->Done_0.groups + below_role,
        };
        assert forall|n: int| mid <= n <= h.len() implies index::groups_scanned(
            roles,
            found,
            #[trigger] h.take(n),
            at,
        ) == index::groups_scanned(rest, more, h.take(n), mid) by {
            assert(h.take(n)[at] == h[at]);
            assert(index::scanned(below_role, found, h.take(n), at + 1) == here);
        }
        assert(h.take(h.len() as int) =~= h);
        lemma_groups_scanned(run, rest, more, mid);
        let all = index::groups_scanned(roles, found, h, at)->Done_0.known;
        assert forall|i: int| 0 <= i < found.known.len() implies #[trigger] all[i]
            == found.known[i] by {
            assert(all[i] == more.known[i]);
        }
        assert(roles.contains(role));
        assert forall|i: int| found.known.len() <= i < all.len() implies is_known(
            b,
            #[trigger] all[i],
        ) && ids.contains(all[i].epic_id->0) by {
            let e = all[i].epic_id->0;
            if i < more.known.len() {
                assert(all[i] == more.known[i]);
                assert(below_role.contains(e));
                let j = choose|j: int| 0 <= j < below_role.len() && below_role[j] == e;
                assert(children[j].id == e);
                assert(b.is_child(e, role));
            } else {
                assert(below(b, rest, e));
                let r = b.epics[e].parent->0;
                let j = choose|j: int| 0 <= j < rest.len() && rest[j] == r;
                assert(roles[j + 1] == r);
            }
        }
        assert forall|t: TaskId, e: EpicId, n: Seq<char>| #[trigger]
            board::lies(b.tasks, t, e, n) && ids.contains(e) implies lists(all, t) by {
            assert(below(b, roles, e));
            let r = b.epics[e].parent->0;
            if r == role {
                assert(b.is_child(e, role));
                let j = choose|j: int| 0 <= j < children.len() && (#[trigger] children[j]).id == e;
                assert(below_role[j] == e);
                assert(below_role.to_set().contains(e));
                let i = choose|i: int|
                    0 <= i < more.known.len() && (#[trigger] more.known[i]).id == t;
                assert(all[i].id == t);
            } else {
                let j = choose|j: int| 0 <= j < roles.len() && roles[j] == r;
                assert(rest[j - 1] == r);
                assert(groups_of(b, rest).contains(e));
            }
        }
    }
}

/// What the walk through the subtree found: tasks that it holds, all of them, and those
/// of the parent first.
spec fn is_index(b: Board, parent: EpicId, roles: Seq<EpicId>, known: Seq<KnownView>) -> bool {
    &&& forall|i: int|
        0 <= i < known.len() ==> is_known(b, #[trigger] known[i]) && in_reviews(
            b,
            parent,
            roles,
            known[i].epic_id->0,
        )
    &&& forall|t: TaskId, e: EpicId, n: Seq<char>| #[trigger]
        board::lies(b.tasks, t, e, n) && in_reviews(b, parent, roles, e) ==> lists(known, t)
    &&& forall|i: int, j: int|
        0 <= i < j < known.len() && (#[trigger] known[j]).epic_id == Some(parent) ==> (
        #[trigger] known[i]).epic_id == Some(parent)
}

proof fn lemma_indexed(run: Run, parent: EpicId, roles: Seq<EpicId>, at: int)
    requires
        run.is_smooth(),
        0 <= at <= run.answers.len(),
        !within(run.boards[at], roles, parent),
        forall|n: int|
            at <= n < run.answers.len() ==> board::asks(
                index::indexed(parent, roles, #[trigger] run.answers.take(n), at),
                run.actions[n],
            ),
        index::indexed(parent, roles, run.answers, at) is Done,
    ensures
        ({
            let end = index::indexed(parent, roles, run.answers, at);
            &&& at <= end->Done_1 <= run.answers.len()
            &&& run.boards[end->Done_1] == run.boards[at]
            &&& is_index(run.boards[at], parent, roles, end->Done_0.known)
            &&& forall|n: int|
                end->Done_1 <= n <= run.answers.len() ==> index::indexed(
                    parent,
                    roles,
                    #[trigger] run.answers.take(n),
                    at,
                ) == end
        }),
{
    let h = run.answers;
    let b = run.boards[at];
    let nothing = IndexView { known: Seq::empty(), groups: Seq::empty() };
    let top = seq![parent];
    assert(h.take(h.len() as int) =~= h);
    assert forall|n: int| at <= n < h.len() implies board::asks(
        index::scanned(top, nothing, #[trigger] h.take(n), at),
        run.actions[n],
    ) by {
        assert(board::asks(index::indexed(parent, roles, h.take(n), at), run.actions[n]));
    }
    lemma_scanned(run, top, nothing, at);
    let one = index::scanned(top, nothing, h, at);
    let at1 = one->Done_1;
    assert forall|n: int| at1 <= n < h.len() implies board::asks(
        index::groups_scanned(roles, one->Done_0, #[trigger] h.take(n), at1),
        run.actions[n],
    ) by {
        assert(board::asks(index::indexed(parent, roles, h.take(n), at), run.actions[n]));
    }
    lemma_groups_scanned(run, roles, one->Done_0, at1);
    let two = index::groups_scanned(roles, one->Done_0, h, at1);
    let at2 = two->Done_1;
    assert forall|n: int| at2 <= n < h.len() implies board::asks(
        index::scanned(roles, two->Done_0, #[trigger] h.take(n), at2),
        run.actions[n],
    ) by {
        assert(board::asks(index::indexed(parent, roles, h.take(n), at), run.actions[n]));
    }
    lemma_scanned(run, roles, two->Done_0, at2);
    let three = index::scanned(roles, two->Done_0, h, at2);
    let k1 = one->Done_0.known;
    let k2 = two->Done_0.known;
    let known = three->Done_0.known;
    assert forall|i: int| 0 <= i < known.len() implies is_known(b, #[trigger] known[i])
        && in_reviews(b, parent, roles, known[i].epic_id->0) && ((known[i].epic_id == Some(parent))
        == (i < k1.len())) by {
        let e = known[i].epic_id->0;
        if i < k2.len() {
            assert(known[i] == k2[i]);
            if i < k1.len() {
                assert(k2[i] == k1[i]);
                assert(top.to_set().contains(e));
                assert(top.contains(e));
            } else {
                assert(groups_of(b, roles).contains(e));
            }
        } else {
            assert(roles.to_set().contains(e));
            assert(roles.contains(e));
        }
    }
    assert forall|t: TaskId, e: EpicId, n: Seq<char>| #[trigger]
        board::lies(b.tasks, t, e, n) && in_reviews(b, parent, roles, e) implies lists(known, t) by {
        if e == parent {
            assert(top[0] == parent);
            assert(top.to_set().contains(e));
            let i = choose|i: int| 0 <= i < k1.len() && (#[trigger] k1[i]).id == t;
            assert(k2[i] == k1[i]);
            assert(known[i] == k2[i]);
        } else if roles.contains(e) {
            assert(roles.to_set().contains(e));
        } else {
            assert(groups_of(b, roles).contains(e));
            let i = choose|i: int| 0 <= i < k2.len() && (#[trigger] k2[i]).id == t;
            assert(known[i] == k2[i]);
        }
    }
    assert forall|n: int| three->Done_1 <= n <= h.len() implies index::indexed(
        parent,
        roles,
        #[trigger] h.take(n),
        at,
    ) == index::indexed(parent, roles, h, at) by {
        assert(index::scanned(top, nothing, h.take(n), at) == one);
        assert(index::groups_scanned(roles, one->Done_0, h.take(n), at1) == two);
        assert(index::scanned(roles, two->Done_0, h.take(n), at2) == three);
    }
}

proof fn lemma_last_known(known: Seq<KnownView>, name: Seq<char>)
    ensures
        match index::last_known(known, name) {
            Some(k) => exists|j: int| #[trigger]
                is_last(known, name, j) && known[j] == k,
            None => forall|i: int| 0 <= i < known.len() ==> (#[trigger] known[i]).external_id != name,
        },
    decreases known.len(),
{
    if known.len() > 0 {
        let before = known.drop_last();
        if known.last().external_id == name {
            assert(is_last(known, name, known.len() - 1));
        } else {
            lemma_last_known(before, name);
            match index::last_known(before, name) {
                Some(k) => {
                    let j = choose|j: int| #[trigger] is_last(before, name, j) && before[j] == k;
                    assert(before[j] == known[j]);
                    assert forall|i: int| j < i < known.len() implies (
                    #[trigger] known[i]).external_id != name by {
                        if i < before.len() {
                            assert(before[i] == known[i]);
                        }
                    }
                    assert(is_last(known, name, j));
                },
                None => {
                    assert forall|i: int| 0 <= i < known.len() implies (
                    #[trigger] known[i]).external_id != name by {
                        if i < before.len() {
                            assert(before[i] == known[i]);
                        }
                    }
                },
            }
        }
    }
}

spec fn is_last(known: Seq<KnownView>, name: Seq<char>, j: int) -> bool {
    &&& 0 <= j < known.len()
    &&& known[j].external_id == name
    &&& forall|i: int| j < i < known.len() ==> (#[trigger] known[i]).external_id != name
}

/// The task that stands for a name is one of the subtree; it is one of the parent only
/// where no other part holds the name.
proof fn lemma_choice(
    b: Board,
    parent: EpicId,
    roles: Seq<EpicId>,
    known: Seq<KnownView>,
    name: Seq<char>,
)
    requires
        is_index(b, parent, roles, known),
        !within(b, roles, parent),
    ensures
        match index::last_known(known, name) {
            Some(k) => {
                &&& is_known(b, k)
                &&& k.external_id == name
                &&& in_reviews(b, parent, roles, k.epic_id->0)
                &&& forall|t: TaskId, e: EpicId| #[trigger]
                    board::lies(b.tasks, t, e, name) && within(b, roles, e) ==> within(
                        b,
                        roles,
                        k.epic_id->0,
                    )
            },
            None => forall|t: TaskId, e: EpicId| #[trigger]
                board::lies(b.tasks, t, e, name) ==> !in_reviews(b, parent, roles, e),
        },
{
    lemma_last_known(known, name);
    match index::last_known(known, name) {
        Some(k) => {
            let j = choose|j: int| #[trigger] is_last(known, name, j) && known[j] == k;
            assert(is_known(b, known[j]));
            assert forall|t: TaskId, e: EpicId| #[trigger]
                board::lies(b.tasks, t, e, name) && within(b, roles, e) implies within(
                b,
                roles,
                k.epic_id->0,
            ) by {
                let i = choose|i: int| 0 <= i < known.len() && (#[trigger] known[i]).id == t;
                assert(is_known(b, known[i]));
                assert(known[i].epic_id == Some(e));
                if i < j && known[j].epic_id == Some(parent) {
                    assert(known[i].epic_id == Some(parent));
                }
            }
        },
        None => {
            assert forall|t: TaskId, e: EpicId| #[trigger]
                board::lies(b.tasks, t, e, name) implies !in_reviews(b, parent, roles, e) by {
                if in_reviews(b, parent, roles, e) {
                    let i = choose|i: int| 0 <= i < known.len() && (#[trigger] known[i]).id == t;
                    assert(is_known(b, known[i]));
                }
            }
        },
    }
}

/// Is this where the item goes: the sub-epic of its role or, where that sorts its tasks,
/// the group of its repository below it?
pub open spec fn is_home(b: Board, to: RolesView, item: FeedItemView, e: EpicId) -> bool {
    let role = to.target(routing::role_of(item.signals));
    if roles::sorts_by_repo(to.subs, role) {
        b.is_child(e, role) && b.epics[e].title == repos::group_name(item.url)
    } else {
        e == role
    }
}

/// Is it the task that stands for the entry?
spec fn is_choice(known: Seq<KnownView>, entry: EntryView, t: TaskId) -> bool {
    index::last_known(known, entry.item.external_id) matches Some(k) && k.id == t
}

/// Do no two entries share a name?
pub open spec fn names_differ(entries: Seq<EntryView>) -> bool {
    forall|i: int, j: int|
        0 <= i < j < entries.len() ==> (#[trigger] entries[i]).item.external_id != (
        #[trigger] entries[j]).item.external_id
}

/// What is so once the first entries have their places: the task of each is there, and
/// the others are untouched.
spec fn is_routed(
    first: Board,
    to: RolesView,
    known: Seq<KnownView>,
    all: Seq<EntryView>,
    sofar: RoutedView,
    b: Board,
) -> bool {
    let i = sofar.targets.len();
    &&& b.sound()
    &&& board::grown(first, b)
    &&& forall|e: EpicId| #[trigger]
        b.epics.contains_key(e) && !first.epics.contains_key(e) ==> below(b, to.ids(), e)
    &&& forall|g: int|
        0 <= g < sofar.groups.len() ==> b.is_child(
            (#[trigger] sofar.groups[g]).id,
            sofar.groups[g].role,
        ) && b.epics[sofar.groups[g].id].title == sofar.groups[g].repo
    &&& forall|j: int|
        0 <= j < i ==> is_home(b, to, (#[trigger] all[j]).item, sofar.targets[j])
    &&& forall|t: TaskId| #[trigger] b.tasks.contains_key(t) == first.tasks.contains_key(t)
    &&& forall|t: TaskId| #[trigger]
        first.tasks.contains_key(t) ==> b.tasks[t].name == first.tasks[t].name && b.tasks[t].work
            == first.tasks[t].work
    &&& forall|j: int, t: TaskId|
        0 <= j < i && #[trigger] is_choice(known, all[j], t) ==> b.tasks[t].epic == Some(
            sofar.targets[j],
        )
    &&& forall|t: TaskId| #[trigger]
        first.tasks.contains_key(t) && (forall|j: int|
            0 <= j < i ==> !#[trigger] is_choice(known, all[j], t)) ==> b.tasks[t]
            == first.tasks[t]
}

proof fn lemma_used_before(b: Board, groups: Seq<GroupView>, role: EpicId, repo: Seq<char>)
    requires
        forall|g: int|
            0 <= g < groups.len() ==> b.is_child((#[trigger] groups[g]).id, groups[g].role)
                && b.epics[groups[g].id].title == groups[g].repo,
    ensures
        placing::used_before(groups, role, repo) matches Some(id) ==> b.is_child(id, role)
            && b.epics[id].title == repo,
    decreases groups.len(),
{
    if groups.len() > 0 && !(groups.last().role == role && groups.last().repo == repo) {
        let before = groups.drop_last();
        assert forall|g: int| 0 <= g < before.len() implies b.is_child(
            (#[trigger] before[g]).id,
            before[g].role,
        ) && b.epics[before[g].id].title == before[g].repo by {
            assert(before[g] == groups[g]);
        }
        lemma_used_before(b, before, role, repo);
    } else if groups.len() > 0 {
        assert(groups[groups.len() - 1] == groups.last());
    }
}

/// The next entry has its place, which may be a new group.
proof fn lemma_placed(
    run: Run,
    first: Board,
    parent: EpicId,
    to: RolesView,
    known: Seq<KnownView>,
    all: Seq<EntryView>,
    sofar: RoutedView,
    at: int,
)
    requires
        run.is_smooth(),
        0 <= at <= run.answers.len(),
        sofar.targets.len() < all.len(),
        have_roles(first, parent, to),
        is_routed(first, to, known, all, sofar, run.boards[at]),
        forall|n: int|
            at <= n < run.answers.len() ==> board::asks(
                placing::placed(
                    all[sofar.targets.len() as int].item,
                    sofar,
                    to,
                    #[trigger] run.answers.take(n),
                    at,
                ),
                run.actions[n],
            ),
        placing::placed(all[sofar.targets.len() as int].item, sofar, to, run.answers, at) is Done,
    ensures
        ({
            let item = all[sofar.targets.len() as int].item;
            let end = placing::placed(item, sofar, to, run.answers, at);
            let more = end->Done_0;
            let b = run.boards[end->Done_1];
            &&& at <= end->Done_1 <= run.answers.len()
            &&& b.tasks == run.boards[at].tasks
            &&& more.targets == sofar.targets.push(more.targets.last())
            &&& is_home(b, to, item, more.targets.last())
            &&& b.epics.contains_key(more.targets.last())
            &&& is_routed(
                first,
                to,
                known,
                all,
                RoutedView { targets: sofar.targets, groups: more.groups },
                b,
            )
            &&& forall|n: int|
                end->Done_1 <= n <= run.answers.len() ==> placing::placed(
                    item,
                    sofar,
                    to,
                    #[trigger] run.answers.take(n),
                    at,
                ) == end
        }),
{
    let h = run.answers;
    let item = all[sofar.targets.len() as int].item;
    let b = run.boards[at];
    let role = to.target(routing::role_of(item.signals));
    let repo = repos::group_name(item.url);
    let end = placing::placed(item, sofar, to, h, at);
    let more = end->Done_0;
    assert(first.epics.contains_key(role));
    assert(to.ids().contains(role)) by {
        assert(to.ids()[0] == to.my && to.ids()[1] == to.team && to.ids()[2] == to.bots);
    }
    assert(more.targets =~= sofar.targets.push(more.targets.last()));
    if roles::sorts_by_repo(to.subs, role) {
        lemma_used_before(b, sofar.groups, role, repo);
        match placing::used_before(sofar.groups, role, repo) {
            Some(id) => {},
            None => {
                assert(at < h.len());
                assert(h.take(at).len() == at);
                assert(run.goes_well(at));
                let id = h[at].made()->Ok_0;
                let after = run.boards[at + 1];
                if !b.epics.contains_key(id) {
                    board::lemma_sound_with_epic(b, id, after.epics[id], role);
                    assert(b.with_epic(id, after.epics[id]) == after);
                }
                assert forall|n: int| at + 1 <= n <= h.len() implies placing::placed(
                    item,
                    sofar,
                    to,
                    #[trigger] h.take(n),
                    at,
                ) == end by {
                    assert(h.take(n)[at] == h[at]);
                }
                let now = RoutedView { targets: sofar.targets, groups: more.groups };
                assert forall|e: EpicId| #[trigger]
                    after.epics.contains_key(e) && !first.epics.contains_key(e) implies below(
                    after,
                    to.ids(),
                    e,
                ) by {
                    if b.epics.contains_key(e) {
                        assert(below(b, to.ids(), e));
                    }
                }
                assert forall|g: int| 0 <= g < now.groups.len() implies after.is_child(
                    (#[trigger] now.groups[g]).id,
                    now.groups[g].role,
                ) && after.epics[now.groups[g].id].title == now.groups[g].repo by {
                    if g < sofar.groups.len() {
                        assert(now.groups[g] == sofar.groups[g]);
                    }
                }
                assert forall|j: int| 0 <= j < sofar.targets.len() implies is_home(
                    after,
                    to,
                    (#[trigger] all[j]).item,
                    sofar.targets[j],
                ) by {
                    assert(is_home(b, to, all[j].item, sofar.targets[j]));
                }
                assert(is_routed(first, to, known, all, now, after));
            },
        }
    }
}

/// The next entry's task is in its place.
proof fn lemma_rehomed(
    run: Run,
    first: Board,
    parent: EpicId,
    to: RolesView,
    known: Seq<KnownView>,
    all: Seq<EntryView>,
    sofar: RoutedView,
    target: EpicId,
    at: int,
)
    requires
        run.is_smooth(),
        0 <= at <= run.answers.len(),
        sofar.targets.len() < all.len(),
        names_differ(all),
        is_index(first, parent, to.ids(), known),
        !within(first, to.ids(), parent),
        is_routed(first, to, known, all, sofar, run.boards[at]),
        is_home(run.boards[at], to, all[sofar.targets.len() as int].item, target),
        run.boards[at].epics.contains_key(target),
        forall|n: int|
            at <= n < run.answers.len() ==> board::asks(
                placing::rehomed(
                    all[sofar.targets.len() as int].item,
                    known,
                    target,
                    #[trigger] run.answers.take(n),
                    at,
                ),
                run.actions[n],
            ),
        placing::rehomed(
            all[sofar.targets.len() as int].item,
            known,
            target,
            run.answers,
            at,
        ) is Done,
    ensures
        ({
            let item = all[sofar.targets.len() as int].item;
            let end = placing::rehomed(item, known, target, run.answers, at);
            &&& at <= end->Done_1 <= run.answers.len()
            &&& is_routed(
                first,
                to,
                known,
                all,
                RoutedView { targets: sofar.targets.push(target), groups: sofar.groups },
                run.boards[end->Done_1],
            )
            &&& forall|n: int|
                end->Done_1 <= n <= run.answers.len() ==> placing::rehomed(
                    item,
                    known,
                    target,
                    #[trigger] run.answers.take(n),
                    at,
                ) == end
        }),
{
    let h = run.answers;
    let i = sofar.targets.len() as int;
    let item = all[i].item;
    let b = run.boards[at];
    let end = placing::rehomed(item, known, target, h, at);
    let now = RoutedView { targets: sofar.targets.push(target), groups: sofar.groups };
    lemma_choice(first, parent, to.ids(), known, item.external_id);
    match index::last_known(known, item.external_id) {
        Some(k) => {
            assert(first.tasks.contains_key(k.id));
            assert forall|j: int| 0 <= j < i implies !#[trigger] is_choice(known, all[j], k.id) by {
                lemma_choice(first, parent, to.ids(), known, all[j].item.external_id);
                assert(all[j].item.external_id != all[i].item.external_id);
            }
            assert(b.tasks[k.id] == first.tasks[k.id]);
            if k.epic_id != Some(target) {
                assert(at < h.len());
                assert(h.take(at).len() == at);
                assert(run.goes_well(at));
                assert(at + 1 < h.len());
                assert(h.take(at + 1)[at] == h[at]);
                assert(run.goes_well(at + 1));
                assert forall|n: int| at + 2 <= n <= h.len() implies placing::rehomed(
                    item,
                    known,
                    target,
                    #[trigger] h.take(n),
                    at,
                ) == end by {
                    assert(h.take(n)[at] == h[at]);
                    assert(h.take(n)[at + 1] == h[at + 1]);
                }
            }
            let after = run.boards[end->Done_1];
            assert(after.epics == b.epics);
            assert(after.tasks[k.id].epic == Some(target));
            assert forall|t: TaskId| #[trigger] after.tasks.contains_key(t)
                == b.tasks.contains_key(t) by {}
            assert forall|t: TaskId| t != k.id implies #[trigger] after.tasks[t] == b.tasks[t] by {}
            lemma_sound_with_tasks(b, after);
            lemma_next_routed(first, parent, to, known, all, sofar, target, b, after);
        },
        None => {
            lemma_next_routed(first, parent, to, known, all, sofar, target, b, b);
        },
    }
}

/// A board whose tasks are all in epics of a sound board is sound with those epics.
proof fn lemma_sound_with_tasks(b: Board, after: Board)
    requires
        b.sound(),
        after.epics == b.epics,
        forall|t: TaskId| #[trigger]
            after.tasks.contains_key(t) ==> after.has_a_place(t) || (b.tasks.contains_key(t)
                && after.tasks[t].epic == b.tasks[t].epic),
    ensures
        after.sound(),
{
    assert forall|t: TaskId| #[trigger] after.tasks.contains_key(t) implies after.has_a_place(t) by {
        if b.tasks.contains_key(t) {
            assert(b.has_a_place(t));
        }
    }
    assert forall|c: EpicId, p: EpicId| #[trigger] after.is_child(c, p) implies after.epics.contains_key(
        p,
    ) && c != p && !after.is_child(p, c) by {
        assert(b.is_child(c, p));
        assert(!b.is_child(p, c));
    }
}

proof fn lemma_next_routed(
    first: Board,
    parent: EpicId,
    to: RolesView,
    known: Seq<KnownView>,
    all: Seq<EntryView>,
    sofar: RoutedView,
    target: EpicId,
    b: Board,
    after: Board,
)
    requires
        sofar.targets.len() < all.len(),
        names_differ(all),
        is_index(first, parent, to.ids(), known),
        !within(first, to.ids(), parent),
        is_routed(first, to, known, all, sofar, b),
        is_home(b, to, all[sofar.targets.len() as int].item, target),
        after.epics == b.epics,
        after.sound(),
        forall|t: TaskId| #[trigger] after.tasks.contains_key(t) == b.tasks.contains_key(t),
        forall|t: TaskId|
            !is_choice(known, all[sofar.targets.len() as int], t) ==> #[trigger] after.tasks[t]
                == b.tasks[t],
        forall|t: TaskId| #[trigger]
            is_choice(known, all[sofar.targets.len() as int], t) ==> after.tasks[t].epic == Some(
                target,
            ) && after.tasks[t].name == b.tasks[t].name && after.tasks[t].work == b.tasks[t].work,
    ensures
        is_routed(
            first,
            to,
            known,
            all,
            RoutedView { targets: sofar.targets.push(target), groups: sofar.groups },
            after,
        ),
{
    let i = sofar.targets.len() as int;
    let now = RoutedView { targets: sofar.targets.push(target), groups: sofar.groups };
    assert forall|e: EpicId| #[trigger]
        after.epics.contains_key(e) && !first.epics.contains_key(e) implies below(
        after,
        to.ids(),
        e,
    ) by {
        assert(below(b, to.ids(), e));
    }
    assert forall|g: int| 0 <= g < now.groups.len() implies after.is_child(
        (#[trigger] now.groups[g]).id,
        now.groups[g].role,
    ) && after.epics[now.groups[g].id].title == now.groups[g].repo by {
        assert(b.is_child(sofar.groups[g].id, sofar.groups[g].role));
    }
    assert forall|j: int| 0 <= j < i + 1 implies is_home(
        after,
        to,
        (#[trigger] all[j]).item,
        now.targets[j],
    ) by {
        assert(is_home(b, to, all[j].item, now.targets[j]));
    }
    assert forall|t: TaskId| #[trigger] first.tasks.contains_key(t) implies after.tasks[t].name
        == first.tasks[t].name && after.tasks[t].work == first.tasks[t].work by {
        if !is_choice(known, all[i], t) {
            assert(after.tasks[t] == b.tasks[t]);
        }
    }
    assert forall|j: int, t: TaskId|
        0 <= j < i + 1 && #[trigger] is_choice(known, all[j], t) implies after.tasks[t].epic
        == Some(now.targets[j]) by {
        if j < i {
            lemma_choice(first, parent, to.ids(), known, all[j].item.external_id);
            lemma_choice(first, parent, to.ids(), known, all[i].item.external_id);
            assert(all[j].item.external_id != all[i].item.external_id);
            assert(!is_choice(known, all[i], t));
            assert(after.tasks[t] == b.tasks[t]);
        }
    }
    assert forall|t: TaskId| #[trigger]
        first.tasks.contains_key(t) && (forall|j: int|
            0 <= j < i + 1 ==> !#[trigger] is_choice(known, all[j], t)) implies after.tasks[t]
        == first.tasks[t] by {
        assert(!is_choice(known, all[i], t));
        assert(after.tasks[t] == b.tasks[t]);
    }
}

proof fn lemma_routed(
    run: Run,
    first: Board,
    parent: EpicId,
    to: RolesView,
    known: Seq<KnownView>,
    all: Seq<EntryView>,
    sofar: RoutedView,
    at: int,
)
    requires
        run.is_smooth(),
        0 <= at <= run.answers.len(),
        sofar.targets.len() <= all.len(),
        names_differ(all),
        have_roles(first, parent, to),
        is_index(first, parent, to.ids(), known),
        !within(first, to.ids(), parent),
        is_routed(first, to, known, all, sofar, run.boards[at]),
        forall|n: int|
            at <= n < run.answers.len() ==> board::asks(
                placing::routed(
                    all.skip(sofar.targets.len() as int),
                    sofar,
                    to,
                    known,
                    #[trigger] run.answers.take(n),
                    at,
                ),
                run.actions[n],
            ),
        placing::routed(
            all.skip(sofar.targets.len() as int),
            sofar,
            to,
            known,
            run.answers,
            at,
        ) is Done,
    ensures
        ({
            let left = all.skip(sofar.targets.len() as int);
            let end = placing::routed(left, sofar, to, known, run.answers, at);
            &&& at <= end->Done_1 <= run.answers.len()
            &&& end->Done_0.targets.len() == all.len()
            &&& is_routed(first, to, known, all, end->Done_0, run.boards[end->Done_1])
            &&& forall|n: int|
                end->Done_1 <= n <= run.answers.len() ==> placing::routed(
                    left,
                    sofar,
                    to,
                    known,
                    #[trigger] run.answers.take(n),
                    at,
                ) == end
        }),
    decreases all.len() - sofar.targets.len(),
{
    let h = run.answers;
    let i = sofar.targets.len() as int;
    let left = all.skip(i);
    if left.len() > 0 {
        let item = all[i].item;
        assert(left[0] == all[i]);
        assert forall|n: int| at <= n < h.len() implies board::asks(
            placing::placed(item, sofar, to, #[trigger] h.take(n), at),
            run.actions[n],
        ) by {
            assert(board::asks(
                placing::routed(left, sofar, to, known, h.take(n), at),
                run.actions[n],
            ));
        }
        lemma_placed(run, first, parent, to, known, all, sofar, at);
        let one = placing::placed(item, sofar, to, h, at);
        let more = one->Done_0;
        let mid = one->Done_1;
        let target = more.targets.last();
        let partly = RoutedView { targets: sofar.targets, groups: more.groups };
        assert forall|n: int| mid <= n < h.len() implies board::asks(
            placing::rehomed(item, known, target, #[trigger] h.take(n), mid),
            run.actions[n],
        ) by {
            assert(placing::placed(item, sofar, to, h.take(n), at) == one);
            assert(board::asks(
                placing::routed(left, sofar, to, known, h.take(n), at),
                run.actions[n],
            ));
        }
        lemma_rehomed(run, first, parent, to, known, all, partly, target, mid);
        let two = placing::rehomed(item, known, target, h, mid);
        let at2 = two->Done_1;
        assert(more == (RoutedView { targets: sofar.targets.push(target), groups: more.groups }));
        assert(left.skip(1) =~= all.skip(i + 1));
        assert(h.take(h.len() as int) =~= h);
        assert forall|n: int| at2 <= n <= h.len() implies placing::routed(
            left,
            sofar,
            to,
            known,
            #[trigger] h.take(n),
            at,
        ) == placing::routed(all.skip(i + 1), more, to, known, h.take(n), at2) by {
            assert(placing::placed(item, sofar, to, h.take(n), at) == one);
            assert(placing::rehomed(item, known, target, h.take(n), mid) == two);
        }
        lemma_routed(run, first, parent, to, known, all, more, at2);
    }
}

/// Is there an entry with the name that goes to the epic?
spec fn is_bound(entries: Seq<EntryView>, targets: Seq<EpicId>, e: EpicId, n: Seq<char>) -> bool {
    exists|j: int|
        0 <= j < entries.len() && targets[j] == e && (#[trigger] entries[j]).item.external_id == n
}

proof fn lemma_bound_names(
    entries: Seq<EntryView>,
    targets: Seq<EpicId>,
    e: EpicId,
    n: Seq<char>,
)
    requires
        entries.len() <= targets.len(),
    ensures
        store::names_of(role_routed::bound_for(entries, targets, e)).contains(n) == is_bound(
            entries,
            targets,
            e,
            n,
        ),
    decreases entries.len(),
{
    let names = store::names_of(role_routed::bound_for(entries, targets, e));
    if entries.len() > 0 {
        let before = entries.drop_last();
        let earlier = store::names_of(role_routed::bound_for(before, targets, e));
        let last = entries.len() - 1;
        lemma_bound_names(before, targets, e, n);
        if names.contains(n) {
            let j = choose|j: int| 0 <= j < names.len() && names[j] == n;
            if j < earlier.len() {
                assert(earlier[j] == n);
                let i = choose|i: int|
                    0 <= i < before.len() && targets[i] == e && (
                    #[trigger] before[i]).item.external_id == n;
                assert(entries[i].item.external_id == n);
            } else {
                assert(entries[last].item.external_id == n);
            }
        }
        if is_bound(entries, targets, e, n) {
            let i = choose|i: int|
                0 <= i < entries.len() && targets[i] == e && (
                #[trigger] entries[i]).item.external_id == n;
            if i < last {
                assert(before[i].item.external_id == n);
                let j = choose|j: int| 0 <= j < earlier.len() && earlier[j] == n;
                assert(names[j] == n);
            } else {
                assert(names[earlier.len() as int] == n);
            }
        }
    }
}

/// The actions come one after the other, and behind them nothing.
proof fn lemma_performed(
    run: Run,
    actions: Seq<StoreActionView>,
    sofar: OutcomeView,
    at: int,
)
    requires
        run.is_smooth(),
        0 <= at <= run.answers.len(),
        forall|n: int|
            at <= n < run.answers.len() ==> role_routed::performed(
                actions,
                sofar,
                #[trigger] run.answers.take(n),
                at,
            ) == SyncStepView::<OutcomeView>::Ask(run.actions[n]),
        role_routed::performed(actions, sofar, run.answers, at) is Done,
    ensures
        at + actions.len() == run.answers.len(),
        forall|j: int| 0 <= j < actions.len() ==> run.actions[at + j] == #[trigger] actions[j],
    decreases actions.len(),
{
    let h = run.answers;
    if actions.len() == 0 {
        if at < h.len() {
            assert(role_routed::performed(actions, sofar, h.take(at), at) is Done);
        }
    } else {
        assert(at < h.len());
        assert(h.take(at).len() == at);
        assert(run.actions[at] == actions[0]);
        let rest = actions.skip(1);
        let more = OutcomeView {
            affected_epics: sofar.affected_epics,
            removed: sofar.removed + h[at].gone(),
        };
        assert forall|n: int| at + 1 <= n < h.len() implies role_routed::performed(
            rest,
            more,
            #[trigger] h.take(n),
            at + 1,
        ) == SyncStepView::<OutcomeView>::Ask(run.actions[n]) by {
            assert(h.take(n)[at] == h[at]);
            assert(role_routed::performed(actions, sofar, h.take(n), at) == SyncStepView::<
                OutcomeView,
            >::Ask(run.actions[n]));
        }
        lemma_performed(run, rest, more, at + 1);
        assert forall|j: int| 0 <= j < actions.len() implies run.actions[at + j]
            == #[trigger] actions[j] by {
            if j > 0 {
                assert(rest[j - 1] == actions[j]);
            }
        }
    }
}

/// The epics are written one after the other.
proof fn lemma_written(
    run: Run,
    entries: Seq<EntryView>,
    targets: Seq<EpicId>,
    ids: Seq<EpicId>,
    at: int,
    k: int,
) -> (plan: Plan)
    requires
        run.is_smooth(),
        0 <= at,
        at + ids.len() <= run.answers.len(),
        0 <= k <= ids.len(),
        ids.no_duplicates(),
        forall|j: int|
            0 <= j < ids.len() ==> run.actions[at + j] == (StoreActionView::Upsert {
                epic: #[trigger] ids[j],
                entries: role_routed::bound_for(entries, targets, ids[j]),
            }),
    ensures
        board::synced(run.boards[at].tasks, plan, true, run.boards[at + k].tasks),
        run.boards[at + k].epics == run.boards[at].epics,
        forall|e: EpicId| #[trigger] plan.contains_key(e) == ids.take(k).contains(e),
        forall|e: EpicId| #[trigger]
            plan.contains_key(e) ==> plan[e] == store::names_of(
                role_routed::bound_for(entries, targets, e),
            ),
    decreases k,
{
    if k == 0 {
        board::lemma_nothing_planned(run.boards[at].tasks);
        Map::empty()
    } else {
        let before = lemma_written(run, entries, targets, ids, at, k - 1);
        let id = ids[k - 1];
        let names = store::names_of(role_routed::bound_for(entries, targets, id));
        assert(run.goes_well(at + (k - 1)));
        let earlier = ids.take(k - 1);
        let now = ids.take(k);
        if earlier.contains(id) {
            let j = choose|j: int| 0 <= j < earlier.len() && earlier[j] == id;
            assert(ids[j] == ids[k - 1]);
        }
        board::lemma_one_more_epic(
            run.boards[at].tasks,
            before,
            run.boards[at + (k - 1)].tasks,
            id,
            names,
            run.boards[at + k].tasks,
        );
        let plan = before.insert(id, names);
        assert forall|e: EpicId| #[trigger] plan.contains_key(e) == now.contains(e) by {
            assert(now =~= earlier.push(id));
            assert(before.contains_key(e) == earlier.contains(e));
            if earlier.contains(e) {
                let j = choose|j: int| 0 <= j < earlier.len() && earlier[j] == e;
                assert(now[j] == e);
            }
            if e == id {
                assert(now[k - 1] == e);
            }
            if now.contains(e) && e != id {
                let j = choose|j: int| 0 <= j < now.len() && now[j] == e;
                assert(earlier[j] == e);
            }
        }
        plan
    }
}

/// What the removals leave: nothing of the parent's, and nothing below that is not kept;
/// whatever else is there is as it was.
spec fn is_swept(
    b: Board,
    parent: EpicId,
    roles: Seq<EpicId>,
    keep: Seq<Seq<char>>,
    after: Board,
) -> bool {
    &&& after.epics == b.epics
    &&& forall|t: TaskId| #[trigger]
        after.tasks.contains_key(t) ==> b.tasks.contains_key(t) && after.tasks[t] == b.tasks[t]
    &&& forall|t: TaskId, e: EpicId, n: Seq<char>| #[trigger]
        board::lies(after.tasks, t, e, n) ==> e != parent && (within(b, roles, e)
            ==> keep.contains(n))
    &&& forall|t: TaskId| #[trigger]
        b.tasks.contains_key(t) && (b.tasks[t].name matches Some(n) ==> keep.contains(n)
            && b.tasks[t].epic != Some(parent)) ==> after.tasks.contains_key(t)
}

proof fn lemma_swept(run: Run, parent: EpicId, to: RolesView, keep: Seq<Seq<char>>, at: int)
    requires
        run.is_smooth(),
        0 <= at,
        at + 5 <= run.answers.len(),
        forall|j: int|
            0 <= j < 5 ==> run.actions[at + j] == #[trigger] role_routed::removals(
                parent,
                to.ids(),
                keep,
            )[j],
    ensures
        role_routed::removals(parent, to.ids(), keep).len() == 5,
        is_swept(run.boards[at], parent, to.ids(), keep, run.boards[at + 5]),
{
    let all = role_routed::removals(parent, to.ids(), keep);
    assert(all.len() == 5);
    assert(all[0] == (StoreActionView::DeleteStale { root: parent, keep }));
    assert(all[1] == (StoreActionView::DeleteStale { root: to.my, keep }));
    assert(all[2] == (StoreActionView::DeleteStale { root: to.team, keep }));
    assert(all[3] == (StoreActionView::DeleteStale { root: to.bots, keep }));
    assert(all[4] == (StoreActionView::Upsert { epic: parent, entries: Seq::empty() }));
    assert(run.actions[at + 0] == all[0]);
    assert(run.goes_well(at));
    assert(run.goes_well(at + 1));
    assert(run.goes_well(at + 2));
    assert(run.goes_well(at + 3));
    assert(run.goes_well(at + 4));
    let b = run.boards[at];
    let b1 = run.boards[at + 1];
    let b2 = run.boards[at + 2];
    let b3 = run.boards[at + 3];
    let b4 = run.boards[at + 4];
    let after = run.boards[at + 5];
    let none = board::single(parent, store::names_of(Seq::<EntryView>::empty()));
    assert(store::names_of(Seq::<EntryView>::empty()) =~= Seq::empty());
    assert forall|t: TaskId| #[trigger] after.tasks.contains_key(t) implies b4.tasks.contains_key(t)
        && b3.tasks.contains_key(t) && b2.tasks.contains_key(t) && b1.tasks.contains_key(t)
        && b.tasks.contains_key(t) && after.tasks[t] == b4.tasks[t] && after.tasks[t] == b3.tasks[t]
        && after.tasks[t] == b2.tasks[t] && after.tasks[t] == b1.tasks[t] && after.tasks[t]
        == b.tasks[t] by {
        assert(board::comes_from(b4.tasks, none, true, t, after.tasks[t]));
        assert(b4.tasks.contains_key(t));
        assert(b3.tasks.contains_key(t));
        assert(b2.tasks.contains_key(t));
        assert(b1.tasks.contains_key(t));
    }
    assert forall|t: TaskId, e: EpicId, n: Seq<char>| #[trigger]
        board::lies(after.tasks, t, e, n) implies e != parent && (within(b, to.ids(), e)
        ==> keep.contains(n)) by {
        assert(after.tasks.contains_key(t));
        assert(board::comes_from(b4.tasks, none, true, t, after.tasks[t]));
        assert(b2.tasks.contains_key(t) && b3.tasks.contains_key(t) && b4.tasks.contains_key(t));
        assert(!b1.stale(to.my, keep, t));
        assert(!b2.stale(to.team, keep, t));
        assert(!b3.stale(to.bots, keep, t));
        if within(b, to.ids(), e) {
            let r = if to.ids().contains(e) { e } else { b.epics[e].parent->0 };
            let j = choose|j: int| 0 <= j < to.ids().len() && to.ids()[j] == r;
            assert(r == to.my || r == to.team || r == to.bots);
            if e != r {
                assert(b1.is_child(e, r) && b2.is_child(e, r) && b3.is_child(e, r));
            }
        }
    }
    assert forall|t: TaskId| #[trigger]
        b.tasks.contains_key(t) && (b.tasks[t].name matches Some(n) ==> keep.contains(n)
            && b.tasks[t].epic != Some(parent)) implies after.tasks.contains_key(t) by {
        assert(!b.stale(parent, keep, t));
        assert(b1.tasks.contains_key(t));
        assert(b2.tasks.contains_key(t));
        assert(b3.tasks.contains_key(t));
        assert(b4.tasks.contains_key(t));
        assert(board::spared(b4.tasks[t], none, true));
    }
}

/// Working out the status anew leaves the rest alone.
proof fn lemma_recalculated(run: Run, from: int, to: int)
    requires
        run.is_smooth(),
        0 <= from <= to <= run.answers.len(),
        forall|j: int| from <= j < to ==> (#[trigger] run.actions[j]) is Recalculate,
    ensures
        run.boards[to] == run.boards[from],
    decreases to - from,
{
    if from < to {
        lemma_recalculated(run, from, to - 1);
        assert(run.actions[to - 1] is Recalculate);
        assert(run.goes_well(to - 1));
    }
}

/// The run of a reviews sync that is to make the board what the emission says.
pub open spec fn is_run(parent: EpicId, entries: Seq<EntryView>, run: Run) -> bool {
    &&& run.is_smooth()
    &&& forall|n: int|
        0 <= n < run.answers.len() ==> role_routed::role_routed(
            parent,
            entries,
            SyncMode::Reconcile,
            #[trigger] run.answers.take(n),
        ) == SyncStepView::<OutcomeView>::Ask(run.actions[n])
    &&& role_routed::role_routed(parent, entries, SyncMode::Reconcile, run.answers) is Done
}

/// What the sync found and where it put each entry.
pub open spec fn outcome(parent: EpicId, entries: Seq<EntryView>, run: Run) -> Opened {
    role_routed::opened(parent, role_routed::reviewable(entries), run.answers)->Done_0
}

/// The boards between: with the roles, with every task in its place, and written.
struct Stages {
    first: Board,
    placed: Board,
    plan: Plan,
    written: Board,
}

spec fn went_through(parent: EpicId, kept: Seq<EntryView>, o: Opened, run: Run, s: Stages) -> bool {
    let roles = o.to.ids();
    &&& is_ready(run.start(), parent, s.first)
    &&& have_roles(s.first, parent, o.to)
    &&& !within(s.first, roles, parent)
    &&& is_index(s.first, parent, roles, o.found.known)
    &&& o.routed.targets.len() == kept.len()
    &&& is_routed(s.first, o.to, o.found.known, kept, o.routed, s.placed)
    &&& board::synced(s.placed.tasks, s.plan, true, s.written.tasks)
    &&& s.written.epics == s.placed.epics
    &&& forall|e: EpicId| #[trigger] s.plan.contains_key(e) == o.routed.targets.contains(e)
    &&& forall|e: EpicId| #[trigger]
        s.plan.contains_key(e) ==> s.plan[e] == store::names_of(
            role_routed::bound_for(kept, o.routed.targets, e),
        )
    &&& is_swept(s.written, parent, roles, store::names_of(kept), run.end())
}

proof fn lemma_opened(parent: EpicId, entries: Seq<EntryView>, run: Run) -> (s: (Board, int))
    requires
        is_run(parent, entries, run),
        run.start().sound(),
        run.start().epics.contains_key(parent),
        names_differ(role_routed::reviewable(entries)),
    ensures
        ({
            let kept = role_routed::reviewable(entries);
            let end = role_routed::opened(parent, kept, run.answers);
            let o = end->Done_0;
            &&& end is Done
            &&& 0 <= end->Done_1 <= run.answers.len()
            &&& s.1 == end->Done_1
            &&& is_ready(run.start(), parent, s.0)
            &&& have_roles(s.0, parent, o.to)
            &&& !within(s.0, o.to.ids(), parent)
            &&& is_index(s.0, parent, o.to.ids(), o.found.known)
            &&& o.routed.targets.len() == kept.len()
            &&& is_routed(s.0, o.to, o.found.known, kept, o.routed, run.boards[s.1])
            &&& forall|n: int|
                s.1 <= n <= run.answers.len() ==> role_routed::opened(
                    parent,
                    kept,
                    #[trigger] run.answers.take(n),
                ) == end
        }),
{
    let h = run.answers;
    let kept = role_routed::reviewable(entries);
    assert(h.take(h.len() as int) =~= h);
    assert forall|n: int| 0 <= n < h.len() implies board::asks(
        role_routed::opened(parent, kept, #[trigger] h.take(n)),
        run.actions[n],
    ) by {
        assert(role_routed::role_routed(parent, entries, SyncMode::Reconcile, h.take(n))
            == SyncStepView::<OutcomeView>::Ask(run.actions[n]));
    }
    let end = role_routed::opened(parent, kept, h);
    assert forall|n: int| 0 <= n < h.len() implies board::asks(
        roles::roles_ensured(parent, #[trigger] h.take(n), 0),
        run.actions[n],
    ) by {
        assert(board::asks(role_routed::opened(parent, kept, h.take(n)), run.actions[n]));
    }
    lemma_roles(run, parent);
    let one = roles::roles_ensured(parent, h, 0);
    let to = one->Done_0;
    let ids = to.ids();
    let at1 = one->Done_1;
    let first = run.boards[at1];
    assert(!within(first, ids, parent)) by {
        if within(first, ids, parent) {
            let r = if ids.contains(parent) { parent } else { first.epics[parent].parent->0 };
            let j = choose|j: int| 0 <= j < ids.len() && ids[j] == r;
            assert(r == to.my || r == to.team || r == to.bots);
            assert(first.is_child(r, parent));
            assert(!first.is_child(parent, r));
        }
    }
    assert forall|n: int| at1 <= n < h.len() implies board::asks(
        index::indexed(parent, ids, #[trigger] h.take(n), at1),
        run.actions[n],
    ) by {
        assert(roles::roles_ensured(parent, h.take(n), 0) == one);
        assert(board::asks(role_routed::opened(parent, kept, h.take(n)), run.actions[n]));
    }
    lemma_indexed(run, parent, ids, at1);
    let two = index::indexed(parent, ids, h, at1);
    let known = two->Done_0.known;
    let at2 = two->Done_1;
    let nothing = RoutedView { targets: Seq::empty(), groups: Seq::empty() };
    assert forall|n: int| at2 <= n < h.len() implies board::asks(
        placing::routed(kept, nothing, to, known, #[trigger] h.take(n), at2),
        run.actions[n],
    ) by {
        assert(roles::roles_ensured(parent, h.take(n), 0) == one);
        assert(index::indexed(parent, ids, h.take(n), at1) == two);
        assert(board::asks(role_routed::opened(parent, kept, h.take(n)), run.actions[n]));
    }
    assert(is_routed(first, to, known, kept, nothing, first));
    assert(kept.skip(0) =~= kept);
    lemma_routed(run, first, parent, to, known, kept, nothing, at2);
    let three = placing::routed(kept, nothing, to, known, h, at2);
    assert forall|n: int| three->Done_1 <= n <= h.len() implies role_routed::opened(
        parent,
        kept,
        #[trigger] h.take(n),
    ) == end by {
        assert(roles::roles_ensured(parent, h.take(n), 0) == one);
        assert(index::indexed(parent, ids, h.take(n), at1) == two);
        assert(placing::routed(kept, nothing, to, known, h.take(n), at2) == three);
    }
    (first, three->Done_1)
}

proof fn lemma_run(parent: EpicId, entries: Seq<EntryView>, run: Run) -> (s: Stages)
    requires
        is_run(parent, entries, run),
        run.start().sound(),
        run.start().epics.contains_key(parent),
        names_differ(role_routed::reviewable(entries)),
    ensures
        role_routed::opened(parent, role_routed::reviewable(entries), run.answers) is Done,
        went_through(
            parent,
            role_routed::reviewable(entries),
            outcome(parent, entries, run),
            run,
            s,
        ),
{
    let h = run.answers;
    let kept = role_routed::reviewable(entries);
    let (first, at) = lemma_opened(parent, entries, run);
    let o = outcome(parent, entries, run);
    let targets = o.routed.targets;
    let keep = store::names_of(kept);
    let actions = o.closing(parent, kept, SyncMode::Reconcile);
    let sofar = OutcomeView { affected_epics: o.affected(parent), removed: Seq::empty() };
    assert forall|n: int| at <= n < h.len() implies role_routed::performed(
        actions,
        sofar,
        #[trigger] h.take(n),
        at,
    ) == SyncStepView::<OutcomeView>::Ask(run.actions[n]) by {
        assert(role_routed::opened(parent, kept, h.take(n)) == role_routed::opened(
            parent,
            kept,
            h,
        ));
        assert(role_routed::role_routed(parent, entries, SyncMode::Reconcile, h.take(n))
            == SyncStepView::<OutcomeView>::Ask(run.actions[n]));
    }
    lemma_performed(run, actions, sofar, at);
    let ids = role_routed::distinct(targets);
    let one = role_routed::writes(kept, targets, SyncMode::Reconcile);
    let two = role_routed::removals(parent, o.to.ids(), keep);
    let three = role_routed::recalculations(o.groups() + o.to.ids() + seq![parent]);
    assert(actions == one + two + three);
    assert(one.len() == ids.len());
    assert(two.len() == 5);
    role_routed::lemma_distinct(targets);
    assert forall|j: int| 0 <= j < ids.len() implies run.actions[at + j] == (
    StoreActionView::Upsert {
        epic: #[trigger] ids[j],
        entries: role_routed::bound_for(kept, targets, ids[j]),
    }) by {
        assert(actions[j] == one[j]);
    }
    let plan = lemma_written(run, kept, targets, ids, at, ids.len() as int);
    assert(ids.take(ids.len() as int) =~= ids);
    let mid = at + ids.len();
    assert forall|j: int| 0 <= j < 5 implies run.actions[mid + j] == #[trigger] two[j] by {
        assert(actions[ids.len() + j] == two[j]);
        assert(run.actions[at + (ids.len() + j)] == actions[ids.len() + j]);
    }
    lemma_swept(run, parent, o.to, keep, mid as int);
    assert forall|j: int| mid + 5 <= j < h.len() implies (#[trigger] run.actions[j]) is Recalculate by {
        let i = j - at;
        assert(actions[i] == three[i - ids.len() - 5]);
        assert(run.actions[at + i] == actions[i]);
    }
    lemma_recalculated(run, mid + 5, h.len() as int);
    assert(run.end() == run.boards[mid + 5]);
    Stages { first, placed: run.boards[at], plan, written: run.boards[mid as int] }
}

/// Does no name of the emission lie twice at the roles or right below them?
pub open spec fn lie_once(b: Board, roles: Seq<EpicId>, entries: Seq<EntryView>) -> bool {
    forall|s: TaskId, t: TaskId, d: EpicId, e: EpicId, n: Seq<char>| #[trigger]
        board::lies(b.tasks, s, d, n) && #[trigger] board::lies(b.tasks, t, e, n) && within(
            b,
            roles,
            d,
        ) && within(b, roles, e) && store::names_of(entries).contains(n) ==> s == t
}

/// A place of an entry is a role or right below one.
proof fn lemma_home_is_within(b: Board, to: RolesView, item: FeedItemView, e: EpicId)
    requires
        is_home(b, to, item, e),
    ensures
        within(b, to.ids(), e),
{
    let role = to.target(routing::role_of(item.signals));
    assert(to.ids()[0] == to.my && to.ids()[1] == to.team && to.ids()[2] == to.bots);
    assert(to.ids().contains(role));
}

/// Which part of the subtree an epic is in does not change while the board grows.
proof fn lemma_same_part(first: Board, b: Board, parent: EpicId, roles: Seq<EpicId>, e: EpicId)
    requires
        board::grown(first, b),
        first.epics.contains_key(e),
    ensures
        within(first, roles, e) == within(b, roles, e),
        in_reviews(first, parent, roles, e) == in_reviews(b, parent, roles, e),
{
}

/// Once every task is in its place, a task under an entry's name at the roles or right
/// below them is the one that stands for the entry, and in the entry's place.
proof fn lemma_only_choice(
    parent: EpicId,
    kept: Seq<EntryView>,
    o: Opened,
    run: Run,
    s: Stages,
    i: int,
    t: TaskId,
    e: EpicId,
)
    requires
        run.start().sound(),
        went_through(parent, kept, o, run, s),
        lie_once(run.start(), o.to.ids(), kept),
        names_differ(kept),
        0 <= i < kept.len(),
        board::lies(s.placed.tasks, t, e, kept[i].item.external_id),
        within(s.placed, o.to.ids(), e),
    ensures
        is_choice(o.found.known, kept[i], t),
        e == o.routed.targets[i],
{
    let ids = o.to.ids();
    let known = o.found.known;
    let name = kept[i].item.external_id;
    assert(s.placed.tasks.contains_key(t));
    assert(s.first.tasks.contains_key(t));
    assert(run.start().has_a_place(t));
    if exists|j: int| 0 <= j < kept.len() && #[trigger] is_choice(known, kept[j], t) {
        let j = choose|j: int| 0 <= j < kept.len() && #[trigger] is_choice(known, kept[j], t);
        lemma_choice(s.first, parent, ids, known, kept[j].item.external_id);
        assert(kept[j].item.external_id == name);
        assert(j == i) by {
            if j < i {
                assert(kept[j].item.external_id != kept[i].item.external_id);
            } else if i < j {
                assert(kept[i].item.external_id != kept[j].item.external_id);
            }
        }
    } else {
        assert(s.placed.tasks[t] == s.first.tasks[t]);
        assert(s.first.epics.contains_key(e));
        lemma_same_part(s.first, s.placed, parent, ids, e);
        lemma_choice(s.first, parent, ids, known, name);
        assert(board::lies(s.first.tasks, t, e, name));
        let k = index::last_known(known, name)->0;
        let d = k.epic_id->0;
        assert(within(s.first, ids, d));
        assert(run.start().tasks.contains_key(k.id));
        assert(run.start().has_a_place(k.id));
        lemma_same_part(run.start(), s.first, parent, ids, d);
        lemma_same_part(run.start(), s.first, parent, ids, e);
        assert(store::names_of(kept)[i] == name);
        assert(board::lies(run.start().tasks, k.id, d, name));
        assert(board::lies(run.start().tasks, t, e, name));
        assert(is_choice(known, kept[i], t));
    }
}

/// The task that stands for an entry is in the entry's place in the end, the same task
/// with the work on it.
proof fn lemma_choice_stays(
    parent: EpicId,
    kept: Seq<EntryView>,
    o: Opened,
    run: Run,
    s: Stages,
    i: int,
    t: TaskId,
)
    requires
        went_through(parent, kept, o, run, s),
        0 <= i < kept.len(),
        is_choice(o.found.known, kept[i], t),
    ensures
        run.start().tasks.contains_key(t),
        board::lies(run.end().tasks, t, o.routed.targets[i], kept[i].item.external_id),
        run.end().tasks[t].work == run.start().tasks[t].work,
{
    let ids = o.to.ids();
    let name = kept[i].item.external_id;
    let target = o.routed.targets[i];
    lemma_choice(s.first, parent, ids, o.found.known, name);
    assert(s.first.tasks.contains_key(t));
    assert(s.placed.tasks.contains_key(t));
    assert(s.placed.tasks[t].epic == Some(target));
    assert(o.routed.targets.contains(target));
    assert(s.plan.contains_key(target));
    assert(is_bound(kept, o.routed.targets, target, name));
    lemma_bound_names(kept, o.routed.targets, target, name);
    assert(board::listed(s.placed.tasks[t], s.plan));
    assert(s.written.tasks.contains_key(t));
    assert(store::names_of(kept)[i] == name);
    assert(is_home(s.placed, o.to, kept[i].item, target));
    lemma_home_is_within(s.placed, o.to, kept[i].item, target);
    lemma_same_part(s.first, s.placed, parent, ids, parent);
    assert(target != parent);
    assert(run.end().tasks.contains_key(t));
}

/// What an entry's name lies at in the end.
proof fn lemma_where(
    parent: EpicId,
    kept: Seq<EntryView>,
    o: Opened,
    run: Run,
    s: Stages,
    t: TaskId,
    e: EpicId,
    n: Seq<char>,
) -> (i: int)
    requires
        run.start().sound(),
        went_through(parent, kept, o, run, s),
        lie_once(run.start(), o.to.ids(), kept),
        names_differ(kept),
        board::lies(run.end().tasks, t, e, n),
        in_reviews(run.end(), parent, o.to.ids(), e),
    ensures
        0 <= i < kept.len(),
        kept[i].item.external_id == n,
        e == o.routed.targets[i],
        is_choice(o.found.known, kept[i], t) || board::made(s.placed.tasks, run.end().tasks[t]),
{
    let ids = o.to.ids();
    let keep = store::names_of(kept);
    assert(run.end().tasks.contains_key(t));
    assert(e != parent);
    assert(within(s.written, ids, e));
    assert(keep.contains(n));
    let i = choose|i: int| 0 <= i < keep.len() && keep[i] == n;
    assert(kept[i].item.external_id == n);
    assert(board::comes_from(s.placed.tasks, s.plan, true, t, s.written.tasks[t]));
    if s.placed.tasks.contains_key(t) && board::lies(s.placed.tasks, t, e, n) {
        assert(within(s.placed, ids, e));
        lemma_only_choice(parent, kept, o, run, s, i, t, e);
        i
    } else {
        assert(board::listed(s.written.tasks[t], s.plan));
        lemma_bound_names(kept, o.routed.targets, e, n);
        let j = choose|j: int|
            0 <= j < kept.len() && o.routed.targets[j] == e && (
            #[trigger] kept[j]).item.external_id == n;
        j
    }
}

/// After a reviews sync that says all there is, each item that asks for a review by the
/// user is one task in the whole subtree: in the sub-epic of its role, or in the group of
/// its repository where that sorts its tasks. No other feed task is in the subtree, and
/// the parent holds none itself. A task that was there for an item, wherever in the
/// subtree, is the same task, with its name and with the work on it: its status, its
/// worktree and its window. A task made by hand is as it was, where it was.
pub proof fn each_review_is_one_task(parent: EpicId, entries: Seq<EntryView>, run: Run)
    requires
        is_run(parent, entries, run),
        run.start().sound(),
        run.start().epics.contains_key(parent),
        names_differ(role_routed::reviewable(entries)),
        lie_once(
            run.start(),
            outcome(parent, entries, run).to.ids(),
            role_routed::reviewable(entries),
        ),
    ensures
        ({
            let kept = role_routed::reviewable(entries);
            let o = outcome(parent, entries, run);
            let roles = o.to.ids();
            let first = run.start();
            let end = run.end();
            &&& have_roles(end, parent, o.to)
            &&& o.routed.targets.len() == kept.len()
            &&& forall|i: int|
                0 <= i < kept.len() ==> is_home(
                    end,
                    o.to,
                    (#[trigger] kept[i]).item,
                    o.routed.targets[i],
                ) && exists|t: TaskId| #[trigger]
                    board::lies(end.tasks, t, o.routed.targets[i], kept[i].item.external_id)
            &&& forall|t: TaskId, e: EpicId, n: Seq<char>| #[trigger]
                board::lies(end.tasks, t, e, n) && in_reviews(end, parent, roles, e) ==> exists|
                    i: int,
                |
                    0 <= i < kept.len() && (#[trigger] kept[i]).item.external_id == n
                        && o.routed.targets[i] == e
            &&& forall|s: TaskId, t: TaskId, d: EpicId, e: EpicId, n: Seq<char>| #[trigger]
                board::lies(end.tasks, s, d, n) && #[trigger] board::lies(end.tasks, t, e, n)
                    && in_reviews(end, parent, roles, d) && in_reviews(end, parent, roles, e) ==> s
                    == t
            &&& forall|t: TaskId, n: Seq<char>| !#[trigger] board::lies(end.tasks, t, parent, n)
            &&& forall|i: int, s: TaskId, d: EpicId|
                0 <= i < kept.len() && #[trigger] board::lies(
                    first.tasks,
                    s,
                    d,
                    (#[trigger] kept[i]).item.external_id,
                ) && in_reviews(first, parent, roles, d) ==> exists|t: TaskId|
                    first.tasks.contains_key(t) && #[trigger] board::lies(
                        end.tasks,
                        t,
                        o.routed.targets[i],
                        kept[i].item.external_id,
                    ) && first.tasks[t].name == Some(kept[i].item.external_id) && end.tasks[t].work
                        == first.tasks[t].work && (d != parent ==> t == s)
            &&& forall|t: TaskId| #[trigger]
                first.tasks.contains_key(t) && first.tasks[t].name is None
                    ==> end.tasks.contains_key(t) && end.tasks[t] == first.tasks[t]
        }),
{
    let kept = role_routed::reviewable(entries);
    let o = outcome(parent, entries, run);
    let roles = o.to.ids();
    let targets = o.routed.targets;
    let known = o.found.known;
    let first = run.start();
    let end = run.end();
    let st = lemma_run(parent, entries, run);
    assert forall|i: int| 0 <= i < kept.len() implies is_home(
        end,
        o.to,
        (#[trigger] kept[i]).item,
        targets[i],
    ) && exists|t: TaskId| #[trigger]
        board::lies(end.tasks, t, targets[i], kept[i].item.external_id) by {
        let name = kept[i].item.external_id;
        assert(is_home(st.placed, o.to, kept[i].item, targets[i]));
        lemma_home_is_within(st.placed, o.to, kept[i].item, targets[i]);
        lemma_same_part(st.first, st.placed, parent, roles, parent);
        assert(targets.contains(targets[i]));
        assert(st.plan.contains_key(targets[i]));
        assert(is_bound(kept, targets, targets[i], name));
        lemma_bound_names(kept, targets, targets[i], name);
        assert(st.plan[targets[i]].contains(name));
        let t = choose|t: TaskId| #[trigger] board::lies(st.written.tasks, t, targets[i], name);
        assert(store::names_of(kept)[i] == name);
        assert(st.written.tasks.contains_key(t));
        assert(end.tasks.contains_key(t));
        assert(board::lies(end.tasks, t, targets[i], name));
    }
    assert forall|t: TaskId, e: EpicId, n: Seq<char>| #[trigger]
        board::lies(end.tasks, t, e, n) && in_reviews(end, parent, roles, e) implies exists|i: int|
        0 <= i < kept.len() && (#[trigger] kept[i]).item.external_id == n && targets[i] == e by {
        let i = lemma_where(parent, kept, o, run, st, t, e, n);
        assert(kept[i].item.external_id == n);
    }
    assert forall|s: TaskId, t: TaskId, d: EpicId, e: EpicId, n: Seq<char>| #[trigger]
        board::lies(end.tasks, s, d, n) && #[trigger] board::lies(end.tasks, t, e, n) && in_reviews(
            end,
            parent,
            roles,
            d,
        ) && in_reviews(end, parent, roles, e) implies s == t by {
        let i = lemma_where(parent, kept, o, run, st, s, d, n);
        let j = lemma_where(parent, kept, o, run, st, t, e, n);
        assert(i == j) by {
            if i < j {
                assert(kept[i].item.external_id != kept[j].item.external_id);
            } else if j < i {
                assert(kept[j].item.external_id != kept[i].item.external_id);
            }
        }
        assert(end.tasks.contains_key(s) && end.tasks.contains_key(t));
        assert(st.written.tasks.contains_key(s) && st.written.tasks.contains_key(t));
        if is_choice(known, kept[i], s) {
            lemma_choice(st.first, parent, roles, known, n);
            assert(st.first.tasks.contains_key(s));
            assert(board::lies(st.placed.tasks, s, d, n));
        }
        if is_choice(known, kept[i], t) {
            lemma_choice(st.first, parent, roles, known, n);
            assert(st.first.tasks.contains_key(t));
            assert(board::lies(st.placed.tasks, t, e, n));
        }
    }
    assert forall|i: int, s: TaskId, d: EpicId|
        0 <= i < kept.len() && #[trigger] board::lies(
            first.tasks,
            s,
            d,
            (#[trigger] kept[i]).item.external_id,
        ) && in_reviews(first, parent, roles, d) implies exists|t: TaskId|
        first.tasks.contains_key(t) && #[trigger] board::lies(
            end.tasks,
            t,
            targets[i],
            kept[i].item.external_id,
        ) && first.tasks[t].name == Some(kept[i].item.external_id) && end.tasks[t].work
            == first.tasks[t].work && (d != parent ==> t == s) by {
        let name = kept[i].item.external_id;
        assert(first.tasks.contains_key(s));
        assert(first.has_a_place(s));
        lemma_same_part(first, st.first, parent, roles, d);
        assert(board::lies(st.first.tasks, s, d, name));
        lemma_choice(st.first, parent, roles, known, name);
        let k = index::last_known(known, name)->0;
        assert(is_choice(known, kept[i], k.id));
        lemma_choice_stays(parent, kept, o, run, st, i, k.id);
        if d != parent {
            let e = k.epic_id->0;
            assert(first.has_a_place(k.id));
            lemma_same_part(first, st.first, parent, roles, e);
            assert(board::lies(first.tasks, k.id, e, name));
            assert(store::names_of(kept)[i] == name);
        }
        assert(board::lies(end.tasks, k.id, targets[i], name));
    }
    assert forall|t: TaskId| #[trigger]
        first.tasks.contains_key(t) && first.tasks[t].name is None implies end.tasks.contains_key(t)
        && end.tasks[t] == first.tasks[t] by {
        assert(st.first.tasks.contains_key(t));
        assert forall|j: int| 0 <= j < kept.len() implies !#[trigger] is_choice(
            known,
            kept[j],
            t,
        ) by {
            lemma_choice(st.first, parent, roles, known, kept[j].item.external_id);
        }
        assert(st.placed.tasks[t] == st.first.tasks[t]);
        assert(st.placed.tasks.contains_key(t));
        assert(board::spared(st.placed.tasks[t], st.plan, true));
        assert(st.written.tasks.contains_key(t));
    }
}

/// A reviews sync that is to remove nothing leaves every task on the board, under its name
/// and with the work on it. A task may be moved within the subtree.
pub proof fn additive_reviews_sync_keeps_every_task(parent: EpicId, entries: Seq<EntryView>, run: Run)
    requires
        run.is_smooth(),
        forall|n: int|
            0 <= n < run.answers.len() ==> role_routed::role_routed(
                parent,
                entries,
                SyncMode::Additive,
                #[trigger] run.answers.take(n),
            ) == SyncStepView::<OutcomeView>::Ask(run.actions[n]),
    ensures
        board::keeps_every_task(run.start(), run.end()),
{
    assert forall|n: int| 0 <= n < run.answers.len() implies !(
    #[trigger] run.actions[n]).removes() by {
        assert(role_routed::role_routed(parent, entries, SyncMode::Additive, run.answers.take(n))
            == SyncStepView::<OutcomeView>::Ask(run.actions[n]));
        role_routed::additive_reviews_sync_removes_nothing(parent, entries, run.answers.take(n));
    }
    board::lemma_run_keeps(run, run.answers.len() as int);
}

} // verus!

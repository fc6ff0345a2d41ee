//! The sub-epics of the reviews subtree, one for each role.

use vstd::prelude::*;

use crate::feed::store;
use crate::feed::store::{StoreAction, StoreActionView, StoreAnswer, SyncStep, SyncStepView};
use crate::models::{Epic, EpicId, FeedRole};

verus! {

/// The title that a role's sub-epic is made with.
pub open spec fn role_title(role: FeedRole) -> Seq<char> {
    match role {
        FeedRole::MyReviews => "My Reviews"@,
        FeedRole::TeamReviews => "Team Reviews"@,
        FeedRole::Bots => "Bots"@,
        _ => "Reviews"@,
    }
}

/// The title that a role's sub-epic is made with.
pub fn role_sub_epic_title(role: FeedRole) -> (r: &'static str)
    ensures
        r@ == role_title(role),
{
    match role {
        FeedRole::MyReviews => "My Reviews",
        FeedRole::TeamReviews => "Team Reviews",
        FeedRole::Bots => "Bots",
        _ => "Reviews",
    }
}

/// The first epic that has the role.
pub open spec fn with_role(epics: Seq<Epic>, role: FeedRole) -> Option<EpicId>
    decreases epics.len(),
{
    if epics.len() == 0 {
        None
    } else if epics[0].feed_role == role {
        Some(epics[0].id)
    } else {
        with_role(epics.skip(1), role)
    }
}

fn find_role(epics: &Vec<Epic>, role: FeedRole) -> (r: Option<EpicId>)
    ensures
        r == with_role(epics@, role),
{
    let mut i: usize = 0;
    assert(epics@.skip(0) =~= epics@);
    while i < epics.len()
        invariant
            i <= epics.len(),
            with_role(epics@, role) == with_role(epics@.skip(i as int), role),
        decreases epics.len() - i,
    {
        assert(epics@.skip(i as int).skip(1) =~= epics@.skip(i + 1));
        if epics[i].feed_role == role {
            return Some(epics[i].id);
        }
        i += 1;
    }
    None
}

/// The sub-epic of a role, by the answers from index `at` on: the one that is
/// there, whatever its title or status, or else one that is made.
pub open spec fn ensured(
    parent: EpicId,
    subs: Seq<Epic>,
    role: FeedRole,
    h: Seq<StoreAnswer>,
    at: int,
) -> SyncStepView<EpicId> {
    match with_role(subs, role) {
        Some(id) => SyncStepView::Done(id, at),
        None => if h.len() <= at {
            SyncStepView::Ask(StoreActionView::CreateEpic { title: role_title(role), parent })
        } else {
            match h[at].made() {
                Err(why) => SyncStepView::Failed(why),
                Ok(id) => if h.len() <= at + 1 {
                    SyncStepView::Ask(StoreActionView::SetRole { epic: id, role })
                } else {
                    match h[at + 1].failure() {
                        Some(why) => SyncStepView::Failed(why),
                        None => SyncStepView::Done(id, at + 2),
                    }
                },
            }
        },
    }
}

/// Find or make the sub-epic of a role.
pub fn ensure_role_sub_epic(
    parent: EpicId,
    existing_subs: &Vec<Epic>,
    role: FeedRole,
    answers: &Vec<StoreAnswer>,
    at: usize,
) -> (r: SyncStep<EpicId>)
    requires
        at <= answers@.len(),
    ensures
        r@ == ensured(parent, existing_subs@, role, answers@, at as int),
        r@ matches SyncStepView::Done(_, used) ==> at <= used <= answers@.len(),
{
    match find_role(existing_subs, role) {
        Some(id) => SyncStep::Done(id, at),
        None => {
            if answers.len() <= at {
                return SyncStep::Ask(
                    StoreAction::CreateEpic { title: role_sub_epic_title(role).to_owned(), parent },
                );
            }
            match answers[at].read_made() {
                Err(why) => SyncStep::Failed(why),
                Ok(id) => {
                    if answers.len() - 1 <= at {
                        return SyncStep::Ask(StoreAction::SetRole { epic: id, role });
                    }
                    match answers[at + 1].why_failed() {
                        Some(why) => SyncStep::Failed(why),
                        None => SyncStep::Done(id, at + 2),
                    }
                },
            }
        },
    }
}

/// The sub-epics of the three roles, and all the sub-epics that were there.
#[derive(Clone, Copy, Debug)]
pub struct RoleSubEpics<'a> {
    pub my: EpicId,
    pub team: EpicId,
    pub bots: EpicId,
    pub existing_subs: &'a Vec<Epic>,
}

/// [`RoleSubEpics`] as values.
pub struct RolesView {
    pub my: EpicId,
    pub team: EpicId,
    pub bots: EpicId,
    pub subs: Seq<Epic>,
}

impl<'a> View for RoleSubEpics<'a> {
    type V = RolesView;

    open spec fn view(&self) -> RolesView {
        RolesView { my: self.my, team: self.team, bots: self.bots, subs: self.existing_subs@ }
    }
}

/// Does the first epic with this identity sort its tasks by repository? One that
/// is not among them was made just now, and does not.
pub open spec fn sorts_by_repo(epics: Seq<Epic>, id: EpicId) -> bool
    decreases epics.len(),
{
    if epics.len() == 0 {
        false
    } else if epics[0].id == id {
        epics[0].group_by_repo
    } else {
        sorts_by_repo(epics.skip(1), id)
    }
}

impl RolesView {
    /// The three sub-epics.
    pub open spec fn ids(self) -> Seq<EpicId> {
        seq![self.my, self.team, self.bots]
    }

    /// The sub-epic of a role; that of the user's own reviews for any other.
    pub open spec fn target(self, role: FeedRole) -> EpicId {
        match role {
            FeedRole::TeamReviews => self.team,
            FeedRole::Bots => self.bots,
            _ => self.my,
        }
    }
}

impl<'a> RoleSubEpics<'a> {
    /// The three sub-epics.
    pub fn ids(&self) -> (r: Vec<EpicId>)
        ensures
            r@ == self@.ids(),
    {
        vec![self.my, self.team, self.bots]
    }

    /// The sub-epic of a role.
    pub fn target_for(&self, role: FeedRole) -> (r: EpicId)
        ensures
            r == self@.target(role),
    {
        match role {
            FeedRole::TeamReviews => self.team,
            FeedRole::Bots => self.bots,
            _ => self.my,
        }
    }

    /// May the epic's tasks be sorted by repository?
    pub fn can_auto_group(&self, id: EpicId) -> (r: bool)
        ensures
            r == sorts_by_repo(self@.subs, id),
    {
        let epics: &Vec<Epic> = self.existing_subs;
        let mut i: usize = 0;
        assert(epics@.skip(0) =~= epics@);
        while i < epics.len()
            invariant
                i <= epics.len(),
                epics@ == self@.subs,
                sorts_by_repo(epics@, id) == sorts_by_repo(epics@.skip(i as int), id),
            decreases epics.len() - i,
        {
            assert(epics@.skip(i as int).skip(1) =~= epics@.skip(i + 1));
            if epics[i].id == id {
                return epics[i].can_auto_group();
            }
            i += 1;
        }
        false
    }
}

/// The three sub-epics, by the answers from index `at` on.
pub open spec fn roles_ensured(parent: EpicId, h: Seq<StoreAnswer>, at: int) -> SyncStepView<
    RolesView,
> {
    if h.len() <= at {
        SyncStepView::Ask(StoreActionView::ListSubEpics(parent))
    } else {
        match h[at].epics() {
            Err(why) => SyncStepView::Failed(why),
            Ok(subs) => match ensured(parent, subs, FeedRole::MyReviews, h, at + 1) {
                SyncStepView::Ask(action) => SyncStepView::Ask(action),
                SyncStepView::Failed(why) => SyncStepView::Failed(why),
                SyncStepView::Done(my, at) => match ensured(
                    parent,
                    subs,
                    FeedRole::TeamReviews,
                    h,
                    at,
                ) {
                    SyncStepView::Ask(action) => SyncStepView::Ask(action),
                    SyncStepView::Failed(why) => SyncStepView::Failed(why),
                    SyncStepView::Done(team, at) => match ensured(
                        parent,
                        subs,
                        FeedRole::Bots,
                        h,
                        at,
                    ) {
                        SyncStepView::Ask(action) => SyncStepView::Ask(action),
                        SyncStepView::Failed(why) => SyncStepView::Failed(why),
                        SyncStepView::Done(bots, at) => SyncStepView::Done(
                            RolesView { my, team, bots, subs },
                            at,
                        ),
                    },
                },
            },
        }
    }
}

/// Find or make the three sub-epics.
pub fn ensure_role_sub_epics(parent: EpicId, answers: &Vec<StoreAnswer>, at: usize) -> (r: SyncStep<
    RoleSubEpics<'_>,
>)
    requires
        at <= answers@.len(),
    ensures
        r@ == roles_ensured(parent, answers@, at as int),
        r@ matches SyncStepView::Done(_, used) ==> at <= used <= answers@.len(),
{
    if answers.len() <= at {
        return SyncStep::Ask(StoreAction::ListSubEpics(parent));
    }
    let existing_subs: &Vec<Epic> = match answers[at].read_epics() {
        Ok(epics) => epics,
        Err(why) => return SyncStep::Failed(why),
    };
    let (my, at): (EpicId, usize) = match ensure_role_sub_epic(
        parent,
        existing_subs,
        FeedRole::MyReviews,
        answers,
        at + 1,
    ) {
        SyncStep::Ask(action) => return SyncStep::Ask(action),
        SyncStep::Failed(why) => return SyncStep::Failed(why),
        SyncStep::Done(id, at) => (id, at),
    };
    let (team, at): (EpicId, usize) = match ensure_role_sub_epic(
        parent,
        existing_subs,
        FeedRole::TeamReviews,
        answers,
        at,
    ) {
        SyncStep::Ask(action) => return SyncStep::Ask(action),
        SyncStep::Failed(why) => return SyncStep::Failed(why),
        SyncStep::Done(id, at) => (id, at),
    };
    let (bots, at): (EpicId, usize) = match ensure_role_sub_epic(
        parent,
        existing_subs,
        FeedRole::Bots,
        answers,
        at,
    ) {
        SyncStep::Ask(action) => return SyncStep::Ask(action),
        SyncStep::Failed(why) => return SyncStep::Failed(why),
        SyncStep::Done(id, at) => (id, at),
    };
    SyncStep::Done(RoleSubEpics { my, team, bots, existing_subs }, at)
}

/// Once the sub-epics are found or made, later answers change nothing about it;
/// and until then nothing is written, removed or moved.
pub proof fn lemma_roles_settled(parent: EpicId, h: Seq<StoreAnswer>, g: Seq<StoreAnswer>, at: int)
    requires
        0 <= at <= h.len(),
    ensures
        roles_ensured(parent, h, at) matches SyncStepView::Done(_, used) ==> at <= used <= h.len()
            && (store::agree(h, g, used) ==> roles_ensured(parent, g, at) == roles_ensured(
            parent,
            h,
            at,
        )),
        roles_ensured(parent, h, at) matches SyncStepView::Ask(a) ==> !a.removes() && !a.writes() && !a.moves(),
{
}

/// A role's sub-epic is the first one that has the role, whatever it is called; one is
/// made, below the parent and under the role's own title, and given the role, only where
/// none has it.
pub proof fn a_role_has_one_sub_epic(
    parent: EpicId,
    subs: Seq<Epic>,
    role: FeedRole,
    h: Seq<StoreAnswer>,
    at: int,
    i: int,
)
    requires
        0 <= at,
    ensures
        0 <= i < subs.len() && subs[i].feed_role == role && (forall|j: int|
            0 <= j < i ==> (#[trigger] subs[j]).feed_role != role) ==> ensured(
            parent,
            subs,
            role,
            h,
            at,
        ) == SyncStepView::Done(subs[i].id, at),
        (forall|j: int| 0 <= j < subs.len() ==> (#[trigger] subs[j]).feed_role != role) ==> {
            let step = ensured(parent, subs, role, h, at);
            &&& h.len() == at ==> (step matches SyncStepView::Ask(
                StoreActionView::CreateEpic { title, parent: above },
            ) && above == parent && (role == FeedRole::MyReviews ==> title == "My Reviews"@) && (
            role == FeedRole::TeamReviews ==> title == "Team Reviews"@) && (role == FeedRole::Bots
                ==> title == "Bots"@))
            &&& at < h.len() && !(h[at] is Made) ==> step is Failed
            &&& h.len() == at + 1 && h[at] is Made ==> step == SyncStepView::<EpicId>::Ask(
                StoreActionView::SetRole { epic: h[at]->Made_0, role },
            )
            &&& h.len() > at + 1 && h[at] is Made && h[at + 1] is Failed ==> step is Failed
            &&& h.len() > at + 1 && h[at] is Made && !(h[at + 1] is Failed) ==> step
                == SyncStepView::Done(h[at]->Made_0, at + 2)
        },
{
    lemma_first_with_role(subs, role, i);
}

proof fn lemma_first_with_role(subs: Seq<Epic>, role: FeedRole, i: int)
    ensures
        0 <= i < subs.len() && subs[i].feed_role == role && (forall|j: int|
            0 <= j < i ==> (#[trigger] subs[j]).feed_role != role) ==> with_role(subs, role) == Some(
            subs[i].id,
        ),
        (forall|j: int| 0 <= j < subs.len() ==> (#[trigger] subs[j]).feed_role != role)
            ==> with_role(subs, role) is None,
    decreases subs.len(),
{
    if subs.len() > 0 && subs[0].feed_role != role {
        let rest = subs.skip(1);
        lemma_first_with_role(rest, role, i - 1);
        if 0 <= i < subs.len() && subs[i].feed_role == role && (forall|j: int|
            0 <= j < i ==> (#[trigger] subs[j]).feed_role != role) {
            assert forall|j: int| 0 <= j < i - 1 implies (#[trigger] rest[j]).feed_role != role by {
                assert(rest[j] == subs[j + 1]);
            }
            assert(rest[i - 1] == subs[i]);
        }
        if forall|j: int| 0 <= j < subs.len() ==> (#[trigger] subs[j]).feed_role != role {
            assert forall|j: int| 0 <= j < rest.len() implies (#[trigger] rest[j]).feed_role
                != role by {
                assert(rest[j] == subs[j + 1]);
            }
        }
    }
}

/// Each role has its own target, and an epic sorts its tasks by repository exactly where
/// it says so of itself; one that was not there before does not.
pub proof fn each_role_has_its_target(to: RolesView, id: EpicId, i: int)
    ensures
        to.target(FeedRole::MyReviews) == to.my,
        to.target(FeedRole::TeamReviews) == to.team,
        to.target(FeedRole::Bots) == to.bots,
        to.target(FeedRole::NoRole) == to.my,
        to.ids() == seq![to.my, to.team, to.bots],
        0 <= i < to.subs.len() && to.subs[i].id == id && (forall|j: int|
            0 <= j < i ==> (#[trigger] to.subs[j]).id != id) ==> sorts_by_repo(to.subs, id)
            == to.subs[i].group_by_repo,
        (forall|j: int| 0 <= j < to.subs.len() ==> (#[trigger] to.subs[j]).id != id)
            ==> !sorts_by_repo(to.subs, id),
{
    lemma_first_with_id(to.subs, id, i);
}

proof fn lemma_first_with_id(subs: Seq<Epic>, id: EpicId, i: int)
    ensures
        0 <= i < subs.len() && subs[i].id == id && (forall|j: int|
            0 <= j < i ==> (#[trigger] subs[j]).id != id) ==> sorts_by_repo(subs, id)
            == subs[i].group_by_repo,
        (forall|j: int| 0 <= j < subs.len() ==> (#[trigger] subs[j]).id != id) ==> !sorts_by_repo(
            subs,
            id,
        ),
    decreases subs.len(),
{
    if subs.len() > 0 && subs[0].id != id {
        let rest = subs.skip(1);
        lemma_first_with_id(rest, id, i - 1);
        if 0 <= i < subs.len() && subs[i].id == id && (forall|j: int|
            0 <= j < i ==> (#[trigger] subs[j]).id != id) {
            assert forall|j: int| 0 <= j < i - 1 implies (#[trigger] rest[j]).id != id by {
                assert(rest[j] == subs[j + 1]);
            }
            assert(rest[i - 1] == subs[i]);
        }
        if forall|j: int| 0 <= j < subs.len() ==> (#[trigger] subs[j]).id != id {
            assert forall|j: int| 0 <= j < rest.len() implies (#[trigger] rest[j]).id != id by {
                assert(rest[j] == subs[j + 1]);
            }
        }
    }
}

/// The sub-epic of a role is called after it, and any other plainly.
pub proof fn each_role_has_its_title(role: FeedRole)
    ensures
        role_title(FeedRole::MyReviews) == "My Reviews"@,
        role_title(FeedRole::TeamReviews) == "Team Reviews"@,
        role_title(FeedRole::Bots) == "Bots"@,
        role == FeedRole::NoRole || role == FeedRole::Cve || role == FeedRole::ReviewsParent
            ==> role_title(role) == "Reviews"@,
{
}

} // verus!

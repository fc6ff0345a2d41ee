//! When the feeds are due.

use vstd::prelude::*;

use crate::models::{Epic, EpicId, TaskStatus};

verus! {

/// How long after a run a feed is due again where its epic does not say.
pub const DEFAULT_FEED_INTERVAL_SECS: u64 = 30;

/// How often the feeds are looked at.
pub const FEED_POLL_INTERVAL_SECS: u64 = 2;

/// When an epic's feed last ran, in milliseconds on a clock that does not go back.
#[derive(Clone, Copy, Debug, PartialEq, Eq)]
pub struct LastRun {
    pub epic: EpicId,
    pub at_millis: u64,
}

/// What the runner remembers from one tick to the next.
#[derive(Clone, Debug)]
pub struct FeedRunner {
    /// When each epic's feed last ran.
    pub last_run: Vec<LastRun>,
    /// Does any epic have a feed command? `None` where that has to be found out.
    pub any_feed_cmds: Option<bool>,
}

/// The runs as a map; of two for an epic the later entry counts.
pub open spec fn runs(last_run: Seq<LastRun>) -> Map<EpicId, u64>
    decreases last_run.len(),
{
    if last_run.len() == 0 {
        Map::empty()
    } else {
        runs(last_run.drop_last()).insert(last_run.last().epic, last_run.last().at_millis)
    }
}

/// The interval of an epic's feed in seconds. A negative number stands for its two's
/// complement: the feed runs once and is then as good as never due.
pub open spec fn interval_of(epic: Epic) -> nat {
    match epic.feed_interval_secs {
        Some(secs) => if secs >= 0 {
            secs as nat
        } else {
            (0x1_0000_0000_0000_0000 + secs) as nat
        },
        None => DEFAULT_FEED_INTERVAL_SECS as nat,
    }
}

/// Is the epic's feed due? It has to have a command and a place on the board; it
/// is due where it never ran, or where its interval has passed since it did.
pub open spec fn is_due(epic: Epic, last: Map<EpicId, u64>, now: u64) -> bool {
    &&& epic.feed_command is Some
    &&& epic.status != TaskStatus::Archived
    &&& last.dom().contains(epic.id) ==> now - last[epic.id] >= 1000 * interval_of(epic)
}

/// The epics that are due, in their order, and when each last ran once they have
/// run.
pub open spec fn due_runs(epics: Seq<Epic>, last: Map<EpicId, u64>, now: u64) -> (
    Seq<EpicId>,
    Map<EpicId, u64>,
)
    decreases epics.len(),
{
    if epics.len() == 0 {
        (Seq::empty(), last)
    } else {
        let (due, then) = due_runs(epics.drop_last(), last, now);
        let epic = epics.last();
        if is_due(epic, then, now) {
            (due.push(epic.id), then.insert(epic.id, now))
        } else {
            (due, then)
        }
    }
}

/// The identities of epics.
pub open spec fn ids(epics: Seq<Epic>) -> Set<EpicId> {
    Set::new(|id: EpicId| exists|i: int| 0 <= i < epics.len() && (#[trigger] epics[i]).id == id)
}

/// Does any of the epics have a feed command?
pub open spec fn any_command(epics: Seq<Epic>) -> bool {
    exists|i: int| 0 <= i < epics.len() && (#[trigger] epics[i]).feed_command is Some
}

fn is_listed(epics: &Vec<Epic>, id: EpicId) -> (r: bool)
    ensures
        r == ids(epics@).contains(id),
{
    let mut i: usize = 0;
    while i < epics.len()
        invariant
            i <= epics.len(),
            forall|j: int| 0 <= j < i ==> (#[trigger] epics@[j]).id != id,
        decreases epics.len() - i,
    {
        if epics[i].id == id {
            return true;
        }
        i += 1;
    }
    false
}

fn interval_secs(epic: &Epic) -> (r: u64)
    ensures
        r == interval_of(*epic),
{
    match epic.feed_interval_secs {
        Some(secs) => if secs >= 0 {
            secs as u64
        } else {
            u64::MAX - (-(secs + 1)) as u64
        },
        None => DEFAULT_FEED_INTERVAL_SECS,
    }
}

impl FeedRunner {
    /// A runner that has run nothing yet.
    pub fn new() -> (r: FeedRunner)
        ensures
            runs(r.last_run@) == Map::<EpicId, u64>::empty(),
            r.any_feed_cmds is None,
    {
        FeedRunner { last_run: Vec::new(), any_feed_cmds: None }
    }

    /// Do the epics have to be listed for this tick? Where none had a feed command
    /// and none has changed since, they do not.
    pub fn begin_tick(&mut self, epic_changed: bool) -> (r: bool)
        ensures
            final(self).last_run == old(self).last_run,
            final(self).any_feed_cmds == if epic_changed {
                None
            } else {
                old(self).any_feed_cmds
            },
            r == (final(self).any_feed_cmds != Some(false)),
    {
        if epic_changed {
            self.any_feed_cmds = None;
        }
        match self.any_feed_cmds {
            Some(any) => any,
            None => true,
        }
    }

    fn last_run_of(&self, id: EpicId) -> (r: Option<u64>)
        ensures
            match r {
                Some(at) => runs(self.last_run@).dom().contains(id) && runs(self.last_run@)[id]
                    == at,
                None => !runs(self.last_run@).dom().contains(id),
            },
    {
        let ghost all = self.last_run@;
        let mut i: usize = self.last_run.len();
        assert(all.take(i as int) =~= all);
        while i > 0
            invariant
                i <= self.last_run.len(),
                all == self.last_run@,
                runs(all).dom().contains(id) == runs(all.take(i as int)).dom().contains(id),
                runs(all).dom().contains(id) ==> runs(all)[id] == runs(all.take(i as int))[id],
            decreases i,
        {
            proof {
                assert(all.take(i as int).drop_last() =~= all.take(i - 1));
                assert(all.take(i as int).last() == all[i - 1]);
            }
            i -= 1;
            if self.last_run[i].epic == id {
                return Some(self.last_run[i].at_millis);
            }
        }
        None
    }

    /// Forgets the epics that are not listed.
    fn retain_listed(&mut self, epics: &Vec<Epic>)
        ensures
            runs(final(self).last_run@) == runs(old(self).last_run@).restrict(ids(epics@)),
            final(self).any_feed_cmds == old(self).any_feed_cmds,
    {
        let ghost all = self.last_run@;
        let ghost listed = ids(epics@);
        let mut kept: Vec<LastRun> = Vec::new();
        let mut i: usize = 0;
        proof {
            assert(all.take(0) =~= Seq::empty());
            assert(runs(kept@) =~= runs(all.take(0)).restrict(listed));
        }
        while i < self.last_run.len()
            invariant
                i <= self.last_run.len(),
                all == self.last_run@,
                listed == ids(epics@),
                runs(kept@) == runs(all.take(i as int)).restrict(listed),
            decreases self.last_run.len() - i,
        {
            let run: LastRun = self.last_run[i];
            proof {
                assert(all.take(i + 1).drop_last() =~= all.take(i as int));
                assert(all.take(i + 1).last() == run);
            }
            if is_listed(epics, run.epic) {
                let ghost before = kept@;
                kept.push(run);
                proof {
                    assert(kept@.drop_last() =~= before);
                    assert(runs(kept@) =~= runs(all.take(i + 1)).restrict(listed));
                }
            } else {
                assert(runs(kept@) =~= runs(all.take(i + 1)).restrict(listed));
            }
            i += 1;
        }
        assert(all.take(i as int) =~= all);
        self.last_run = kept;
    }

    /// The epics whose feeds run now, of all the epics that there are. They are
    /// noted as run; an epic that is gone is forgotten.
    pub fn tick(&mut self, epics: &Vec<Epic>, now_millis: u64) -> (r: Vec<EpicId>)
        ensures
            (r@, runs(final(self).last_run@)) == due_runs(
                epics@,
                runs(old(self).last_run@).restrict(ids(epics@)),
                now_millis,
            ),
            final(self).any_feed_cmds == Some(any_command(epics@)),
    {
        self.retain_listed(epics);
        let ghost last = runs(self.last_run@);
        let mut any: bool = false;
        let mut r: Vec<EpicId> = Vec::new();
        let mut i: usize = 0;
        assert(epics@.take(0) =~= Seq::empty());
        while i < epics.len()
            invariant
                i <= epics.len(),
                any == any_command(epics@.take(i as int)),
                (r@, runs(self.last_run@)) == due_runs(epics@.take(i as int), last, now_millis),
            decreases epics.len() - i,
        {
            let epic: &Epic = &epics[i];
            let ghost front = epics@.take(i as int);
            let ghost longer = epics@.take(i + 1);
            proof {
                assert(longer.drop_last() =~= front);
                assert(longer.last() == *epic);
            }
            if epic.feed_command.is_some() {
                proof {
                    assert(longer[i as int].feed_command is Some);
                }
                any = true;
                if epic.status != TaskStatus::Archived {
                    let due: bool = match self.last_run_of(epic.id) {
                        Some(then) => now_millis >= then && (now_millis - then) as u128 >= 1000
                            * (interval_secs(epic) as u128),
                        None => true,
                    };
                    if due {
                        let ghost before = self.last_run@;
                        self.last_run.push(LastRun { epic: epic.id, at_millis: now_millis });
                        r.push(epic.id);
                        assert(self.last_run@.drop_last() =~= before);
                    }
                }
            }
            proof {
                if any_command(front) {
                    let j = choose|j: int| 0 <= j < front.len() && (#[trigger] front[j]).feed_command
                        is Some;
                    assert(longer[j].feed_command is Some);
                }
                if any_command(longer) {
                    let j = choose|j: int|
                        0 <= j < longer.len() && (#[trigger] longer[j]).feed_command is Some;
                    if j < i {
                        assert(front[j].feed_command is Some);
                    }
                }
            }
            i += 1;
        }
        assert(epics@.take(i as int) =~= epics@);
        self.any_feed_cmds = Some(any);
        r
    }
}

proof fn lemma_due_runs(epics: Seq<Epic>, last: Map<EpicId, u64>, now: u64)
    ensures
        forall|id: EpicId|
            #![trigger due_runs(epics, last, now).0.contains(id)]
            #![trigger due_runs(epics, last, now).1.dom().contains(id)]
            {
                let (due, then) = due_runs(epics, last, now);
                &&& due.contains(id) ==> then.dom().contains(id) && then[id] == now
                &&& !due.contains(id) ==> then.dom().contains(id) == last.dom().contains(id)
                    && then[id] == last[id]
                &&& due.contains(id) ==> exists|i: int|
                    0 <= i < epics.len() && (#[trigger] epics[i]).id == id
                        && epics[i].feed_command is Some && epics[i].status != TaskStatus::Archived
            },
    decreases epics.len(),
{
    if epics.len() > 0 {
        let before = epics.drop_last();
        let epic = epics.last();
        lemma_due_runs(before, last, now);
        let (sofar, earlier) = due_runs(before, last, now);
        let (due, then) = due_runs(epics, last, now);
        assert forall|id: EpicId|
            #![trigger due_runs(epics, last, now).0.contains(id)]
            #![trigger due_runs(epics, last, now).1.dom().contains(id)] {
            &&& due.contains(id) ==> then.dom().contains(id) && then[id] == now
            &&& !due.contains(id) ==> then.dom().contains(id) == last.dom().contains(id) && then[id]
                == last[id]
            &&& due.contains(id) ==> exists|i: int|
                0 <= i < epics.len() && (#[trigger] epics[i]).id == id && epics[i].feed_command
                    is Some && epics[i].status != TaskStatus::Archived
        } by {
            assert(sofar.contains(id) ==> earlier.dom().contains(id));
            if is_due(epic, earlier, now) {
                if sofar.contains(id) {
                    let j = choose|j: int| 0 <= j < sofar.len() && sofar[j] == id;
                    assert(due[j] == id);
                }
                if id == epic.id {
                    assert(due[sofar.len() as int] == id);
                }
                if due.contains(id) && id != epic.id {
                    let j = choose|j: int| 0 <= j < due.len() && due[j] == id;
                    assert(sofar[j] == id);
                }
            }
            if sofar.contains(id) {
                let i = choose|i: int|
                    0 <= i < before.len() && (#[trigger] before[i]).id == id
                        && before[i].feed_command is Some && before[i].status
                        != TaskStatus::Archived;
                assert(epics[i].id == id);
            }
            if due.contains(id) && !sofar.contains(id) {
                assert(epics[epics.len() - 1].id == id);
            }
        }
    }
}

/// Only an epic with a command and a place on the board runs; and what runs is
/// remembered as having run now, while nothing else is remembered differently.
pub proof fn running_is_remembered(epics: Seq<Epic>, last: Map<EpicId, u64>, now: u64, id: EpicId)
    ensures
        due_runs(epics, last, now).0.contains(id) ==> {
            &&& due_runs(epics, last, now).1.dom().contains(id)
            &&& due_runs(epics, last, now).1[id] == now
            &&& exists|i: int|
                0 <= i < epics.len() && (#[trigger] epics[i]).id == id && epics[i].feed_command
                    is Some && epics[i].status != TaskStatus::Archived
        },
        !due_runs(epics, last, now).0.contains(id) ==> {
            &&& due_runs(epics, last, now).1.dom().contains(id) == last.dom().contains(id)
            &&& due_runs(epics, last, now).1[id] == last[id]
        },
{
    lemma_due_runs(epics, last, now);
}

/// A feed that ran is not run again before its interval has passed.
pub proof fn feed_rests_for_its_interval(
    epics: Seq<Epic>,
    last: Map<EpicId, u64>,
    now: u64,
    i: int,
)
    requires
        0 <= i < epics.len(),
        forall|a: int, b: int|
            0 <= a < b < epics.len() ==> (#[trigger] epics[a]).id != (#[trigger] epics[b]).id,
        last.dom().contains(epics[i].id),
        now - last[epics[i].id] < 1000 * interval_of(epics[i]),
    ensures
        !due_runs(epics, last, now).0.contains(epics[i].id),
    decreases epics.len(),
{
    let before = epics.drop_last();
    let (sofar, earlier) = due_runs(before, last, now);
    let due = due_runs(epics, last, now).0;
    let id = epics[i].id;
    assert forall|a: int, b: int| 0 <= a < b < before.len() implies (#[trigger] before[a]).id
        != (#[trigger] before[b]).id by {
        assert(epics[a].id != epics[b].id);
    }
    lemma_due_runs(before, last, now);
    if i < before.len() {
        assert(before[i] == epics[i]);
        feed_rests_for_its_interval(before, last, now, i);
        assert(epics[epics.len() - 1].id != id);
    } else {
        if sofar.contains(id) {
            let j = choose|j: int|
                0 <= j < before.len() && (#[trigger] before[j]).id == id && before[j].feed_command
                    is Some && before[j].status != TaskStatus::Archived;
            assert(epics[j].id == epics[i].id);
        }
        assert(!is_due(epics.last(), earlier, now));
    }
    if due.contains(id) {
        let j = choose|j: int| 0 <= j < due.len() && due[j] == id;
        if j < sofar.len() {
            assert(sofar[j] == id);
            assert(sofar.contains(id));
        }
    }
}

/// A feed that has a command and never ran, or whose interval has passed, runs.
pub proof fn due_feed_runs(epics: Seq<Epic>, last: Map<EpicId, u64>, now: u64, i: int)
    requires
        0 <= i < epics.len(),
        is_due(epics[i], last, now),
    ensures
        due_runs(epics, last, now).0.contains(epics[i].id),
    decreases epics.len(),
{
    let before = epics.drop_last();
    let (sofar, earlier) = due_runs(before, last, now);
    let due = due_runs(epics, last, now).0;
    let id = epics[i].id;
    lemma_due_runs(before, last, now);
    if i < before.len() {
        assert(before[i] == epics[i]);
        due_feed_runs(before, last, now, i);
    }
    if sofar.contains(id) {
        let j = choose|j: int| 0 <= j < sofar.len() && sofar[j] == id;
        assert(due[j] == id);
    } else {
        assert(earlier.dom().contains(id) == last.dom().contains(id) && earlier[id] == last[id]);
        assert(is_due(epics.last(), earlier, now));
        assert(due[sofar.len() as int] == id);
    }
}

/// The seconds between two runs of a feed: what its epic says, or half a minute.
pub open spec fn seconds_between(epic: Epic) -> int {
    match epic.feed_interval_secs {
        Some(secs) => secs as int,
        None => 30,
    }
}

/// A feed runs where it has a command, its epic is on the board, and it never ran or its
/// interval has passed since it did, to the millisecond.
pub proof fn a_feed_runs_when_its_time_has_come(
    epics: Seq<Epic>,
    last: Map<EpicId, u64>,
    now: u64,
    i: int,
)
    requires
        0 <= i < epics.len(),
        epics[i].feed_command is Some,
        epics[i].status != TaskStatus::Archived,
        seconds_between(epics[i]) >= 0,
        last.dom().contains(epics[i].id) ==> now - last[epics[i].id] >= 1000 * seconds_between(
            epics[i],
        ),
    ensures
        due_runs(epics, last, now).0.contains(epics[i].id),
{
    due_feed_runs(epics, last, now, i);
}

/// A feed without a command or of an archived epic never runs; one that ran does not run
/// again before its interval has passed, and one with a negative interval does not run
/// again at all.
pub proof fn a_feed_rests_until_then(
    epics: Seq<Epic>,
    last: Map<EpicId, u64>,
    now: u64,
    i: int,
)
    requires
        0 <= i < epics.len(),
        forall|a: int, b: int|
            0 <= a < b < epics.len() ==> (#[trigger] epics[a]).id != (#[trigger] epics[b]).id,
        epics[i].feed_command is None || epics[i].status == TaskStatus::Archived || (
        last.dom().contains(epics[i].id) && (seconds_between(epics[i]) < 0 || now
            - last[epics[i].id] < 1000 * seconds_between(epics[i]))),
    ensures
        !due_runs(epics, last, now).0.contains(epics[i].id),
{
    if epics[i].feed_command is None || epics[i].status == TaskStatus::Archived {
        running_is_remembered(epics, last, now, epics[i].id);
        if due_runs(epics, last, now).0.contains(epics[i].id) {
            let j = choose|j: int|
                0 <= j < epics.len() && (#[trigger] epics[j]).id == epics[i].id
                    && epics[j].feed_command is Some && epics[j].status != TaskStatus::Archived;
            assert(epics[j].id == epics[i].id);
        }
    } else {
        feed_rests_for_its_interval(epics, last, now, i);
    }
}

/// The feeds run in the order of their epics: one more epic, behind the others, is the
/// last to run, if it runs at all, and changes nothing about the others.
pub proof fn feeds_run_in_the_order_of_their_epics(
    epics: Seq<Epic>,
    more: Epic,
    last: Map<EpicId, u64>,
    now: u64,
)
    ensures
        due_runs(epics.push(more), last, now).0 == due_runs(epics, last, now).0
            || due_runs(epics.push(more), last, now).0 == due_runs(epics, last, now).0.push(more.id),
        due_runs(Seq::<Epic>::empty(), last, now).0 == Seq::<EpicId>::empty(),
{
    assert(epics.push(more).drop_last() =~= epics);
}

/// The runner looks for feeds as long as some epic has a command, be it archived or not.
pub proof fn a_command_keeps_the_runner_looking(epics: Seq<Epic>, i: int)
    ensures
        0 <= i < epics.len() && epics[i].feed_command is Some ==> any_command(epics),
        (forall|j: int| 0 <= j < epics.len() ==> (#[trigger] epics[j]).feed_command is None)
            ==> !any_command(epics),
{
}

/// The last entry for an epic says when it ran, and an epic without an entry never did.
pub proof fn the_later_entry_counts(last_run: Seq<LastRun>, more: LastRun, other: EpicId)
    ensures
        runs(last_run.push(more)).dom().contains(more.epic),
        runs(last_run.push(more))[more.epic] == more.at_millis,
        other != more.epic ==> (runs(last_run.push(more)).dom().contains(other) <==> runs(
            last_run,
        ).dom().contains(other)),
        other != more.epic && runs(last_run).dom().contains(other) ==> runs(
            last_run.push(more),
        )[other] == runs(last_run)[other],
        runs(Seq::<LastRun>::empty()) == Map::<EpicId, u64>::empty(),
{
    assert(last_run.push(more).drop_last() =~= last_run);
}

/// Every epic that is there is among the identities, and no other.
pub proof fn each_epic_has_its_identity(epics: Seq<Epic>, id: EpicId, i: int)
    ensures
        0 <= i < epics.len() ==> ids(epics).contains(epics[i].id),
        (forall|j: int| 0 <= j < epics.len() ==> (#[trigger] epics[j]).id != id) ==> !ids(
            epics,
        ).contains(id),
{
}

} // verus!

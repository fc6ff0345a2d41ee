//! One feed cycle for one epic: claim it, read it, run its command, read what the
//! command wrote, sync that into the board, and clean up behind what is gone.

use vstd::prelude::*;

use crate::feed::entries;
use crate::feed::entries::{EntryView, FeedItemWithTarget, SyncMode};
use crate::feed::exec;
use crate::feed::ingest::sync;
use crate::feed::parse;
use crate::feed::repos;
use crate::feed::store::{
    FeedSyncOutcome, OutcomeView, RemovedFeedTask, RemovedView, StoreAction, StoreActionView,
    StoreAnswer, SyncStep, SyncStepView,
};
use crate::git;
use crate::models;
use crate::models::{Epic, EpicId, FeedItem, FeedItemView, FeedRole, TaskStatus};
use crate::process;
use crate::process::{Command, CommandView, Reply};
use crate::text;

verus! {

/// What reading an epic came to.
#[derive(Clone, Debug)]
pub enum EpicReading {
    Found(Epic),
    Missing,
    /// It could not be read; and why.
    Unreadable(String),
}

/// What running a feed command came to.
#[derive(Clone, Debug, PartialEq, Eq)]
pub enum FeedOutput {
    Exited { code: Option<i32>, stdout: Vec<u8>, stderr: String },
    /// It could not be started; and why.
    NotRun(String),
    /// It did not end in time and was stopped.
    TimedOut,
}

/// What a cycle found out and got done so far.
#[derive(Clone, Debug)]
pub struct CycleHistory {
    /// Was the epic free? A claim holds until the cycle is over.
    pub claimed: Option<bool>,
    pub epic: Option<EpicReading>,
    pub output: Option<FeedOutput>,
    /// The paths of the repositories that are known.
    pub known_paths: Option<Vec<String>>,
    /// What came of the questions about base branches.
    pub replies: Vec<Reply>,
    /// What the store said.
    pub store: Vec<StoreAnswer>,
    /// Was the epic's status worked out anew after the sync?
    pub recalculated: bool,
    /// How many of the removed tasks are cleaned up behind.
    pub torn_down: usize,
}

impl CycleHistory {
    /// A cycle that has not begun. The paths are given where they were listed for
    /// several cycles at once.
    pub fn new(known_paths: Option<Vec<String>>) -> (r: CycleHistory)
        ensures
            r.claimed is None,
            r.epic is None,
            r.output is None,
            r.known_paths == known_paths,
            r.replies@.len() == 0,
            r.store@.len() == 0,
            !r.recalculated,
            r.torn_down == 0,
    {
        CycleHistory {
            claimed: None,
            epic: None,
            output: None,
            known_paths,
            replies: Vec::new(),
            store: Vec::new(),
            recalculated: false,
            torn_down: 0,
        }
    }
}

/// Something that a cycle needs done.
#[derive(Clone, Debug)]
pub enum CycleAction {
    /// Claim the epic, if no other cycle has it.
    Claim,
    /// Read the epic.
    ReadEpic,
    /// Run the feed command in a shell.
    Execute(String),
    /// List the paths of the repositories that are known.
    ListRepoPaths,
    /// Ask about a base branch.
    Run(Command),
    /// Do this in the store.
    Store(StoreAction),
    /// Work out the epic's status anew.
    Recalculate,
    /// Remove the worktree and the window that a removed task left behind.
    TearDown(RemovedFeedTask),
}

/// [`CycleAction`] as values.
#[verifier::ext_equal]
pub enum CycleActionView {
    Claim,
    ReadEpic,
    Execute(Seq<char>),
    ListRepoPaths,
    Run(CommandView),
    Store(StoreActionView),
    Recalculate,
    TearDown(RemovedView),
}

impl View for CycleAction {
    type V = CycleActionView;

    open spec fn view(&self) -> CycleActionView {
        match self {
            CycleAction::Claim => CycleActionView::Claim,
            CycleAction::ReadEpic => CycleActionView::ReadEpic,
            CycleAction::Execute(command) => CycleActionView::Execute(command@),
            CycleAction::ListRepoPaths => CycleActionView::ListRepoPaths,
            CycleAction::Run(command) => CycleActionView::Run(command@),
            CycleAction::Store(action) => CycleActionView::Store(action@),
            CycleAction::Recalculate => CycleActionView::Recalculate,
            CycleAction::TearDown(task) => CycleActionView::TearDown(task@),
        }
    }
}

/// What a cycle did.
#[derive(Clone, Debug)]
pub enum FeedCycleOutcome {
    /// The sync ran.
    Synced {
        /// How many items the command wrote.
        count: usize,
        /// The epics whose content may have changed.
        affected_epics: Vec<EpicId>,
        /// What was wrong with the emission, where something was.
        degraded: Option<String>,
    },
    /// Another cycle has the epic.
    Busy,
    /// The cycle stopped; and why.
    Failed(String),
}

/// [`FeedCycleOutcome`] as values.
#[verifier::ext_equal]
pub enum CycleOutcomeView {
    Synced { count: nat, affected_epics: Seq<EpicId>, degraded: Option<Seq<char>> },
    Busy,
    Failed(Seq<char>),
}

impl View for FeedCycleOutcome {
    type V = CycleOutcomeView;

    open spec fn view(&self) -> CycleOutcomeView {
        match self {
            FeedCycleOutcome::Synced { count, affected_epics, degraded } => CycleOutcomeView::Synced {
                count: *count as nat,
                affected_epics: affected_epics@,
                degraded: models::opt_text(*degraded),
            },
            FeedCycleOutcome::Busy => CycleOutcomeView::Busy,
            FeedCycleOutcome::Failed(why) => CycleOutcomeView::Failed(why@),
        }
    }
}

/// How far a cycle is.
pub enum CycleStep {
    /// It needs this done to go on.
    Ask(CycleAction),
    /// It is over.
    Done(FeedCycleOutcome),
}

/// [`CycleStep`] as values.
#[verifier::ext_equal]
pub enum CycleStepView {
    Ask(CycleActionView),
    Done(CycleOutcomeView),
}

impl View for CycleStep {
    type V = CycleStepView;

    open spec fn view(&self) -> CycleStepView {
        match self {
            CycleStep::Ask(action) => CycleStepView::Ask(action@),
            CycleStep::Done(outcome) => CycleStepView::Done(outcome@),
        }
    }
}

/// The feed command of an epic, or why no cycle can run for it.
pub open spec fn command_of(reading: EpicReading) -> Result<Seq<char>, Seq<char>> {
    match reading {
        EpicReading::Missing => Err("epic no longer exists"@),
        EpicReading::Unreadable(why) => Err("failed to read epic: "@ + why@),
        EpicReading::Found(epic) => if epic.status == TaskStatus::Archived {
            Err("epic is archived"@)
        } else {
            match epic.feed_command {
                Some(command) => Ok(command@),
                None => Err("epic has no feed command"@),
            }
        },
    }
}

/// The epic that a cycle runs for, and its feed command, or why none can run.
pub fn admit_epic(reading: &EpicReading) -> (r: Result<(&Epic, &String), String>)
    ensures
        match (r, command_of(*reading)) {
            (Ok((epic, command)), Ok(c)) => *reading == EpicReading::Found(*epic) && command@ == c,
            (Err(s), Err(why)) => s@ == why,
            _ => false,
        },
{
    match reading {
        EpicReading::Missing => Err("epic no longer exists".to_owned()),
        EpicReading::Unreadable(why) => Err(
            "failed to read epic: ".to_owned().concat(why.as_str()),
        ),
        EpicReading::Found(epic) => {
            if epic.status == TaskStatus::Archived {
                return Err("epic is archived".to_owned());
            }
            match &epic.feed_command {
                Some(command) => Ok((epic, command)),
                None => Err("epic has no feed command".to_owned()),
            }
        },
    }
}

/// What a feed command wrote, to its output and to its error output, or why there
/// is nothing to go by.
pub open spec fn written(output: FeedOutput) -> Result<(Seq<u8>, Seq<char>), Seq<char>> {
    match output {
        FeedOutput::NotRun(why) => Err("failed to spawn command: "@ + why@),
        FeedOutput::TimedOut => Err("command timed out"@),
        FeedOutput::Exited { code, stdout, stderr } => if code == Some(0i32) {
            Ok((stdout@, stderr@))
        } else {
            Err("command exited non-zero: "@ + stderr@)
        },
    }
}

/// What a feed command wrote.
pub fn exec_feed_command(output: &FeedOutput) -> (r: Result<(&Vec<u8>, &String), String>)
    ensures
        match (r, written(*output)) {
            (Ok((stdout, stderr)), Ok((o, e))) => stdout@ == o && stderr@ == e,
            (Err(s), Err(why)) => s@ == why,
            _ => false,
        },
{
    match output {
        FeedOutput::NotRun(why) => Err("failed to spawn command: ".to_owned().concat(why.as_str())),
        FeedOutput::TimedOut => Err("command timed out".to_owned()),
        FeedOutput::Exited { code, stdout, stderr } => {
            let well: bool = match code {
                Some(code) => *code == 0,
                None => false,
            };
            if well {
                Ok((stdout, stderr))
            } else {
                Err("command exited non-zero: ".to_owned().concat(stderr.as_str()))
            }
        },
    }
}

/// Does the error output complain of anything?
pub open spec fn complains(stderr: Seq<char>) -> bool {
    text::trim(stderr).len() > 0
}

/// Why an emission of so many items cannot be trusted at all: it is empty, and the
/// command complained. To sync it would remove every feed task.
pub open spec fn empty_and_degraded(count: nat, stderr: Seq<char>) -> Option<Seq<char>> {
    if count == 0 && complains(stderr) {
        Some("command emitted no items and wrote to stderr: "@ + text::trim(stderr))
    } else {
        None
    }
}

/// Why an emission of so many items cannot be trusted in what it leaves out: the
/// command complained.
pub open spec fn partly_degraded(count: nat, stderr: Seq<char>) -> Option<Seq<char>> {
    if count > 0 && complains(stderr) {
        Some("command wrote to stderr: "@ + text::trim(stderr))
    } else {
        None
    }
}

pub fn degraded_empty_emission(count: usize, stderr: &str) -> (r: Option<String>)
    ensures
        models::opt_text(r) == empty_and_degraded(count as nat, stderr@),
{
    let complaint: String = text::trimmed(stderr);
    if count == 0 && !complaint.as_str().is_empty() {
        Some(
            "command emitted no items and wrote to stderr: ".to_owned().concat(complaint.as_str()),
        )
    } else {
        None
    }
}

pub fn degraded_partial_emission(count: usize, stderr: &str) -> (r: Option<String>)
    ensures
        models::opt_text(r) == partly_degraded(count as nat, stderr@),
{
    let complaint: String = text::trimmed(stderr);
    if count > 0 && !complaint.as_str().is_empty() {
        Some("command wrote to stderr: ".to_owned().concat(complaint.as_str()))
    } else {
        None
    }
}

/// How an emission is synced: nothing is removed where the emission cannot be
/// trusted in what it leaves out, nor where the epic only ever grows.
pub open spec fn mode_for(degraded: bool, append_only: bool) -> SyncMode {
    if degraded || append_only {
        SyncMode::Additive
    } else {
        SyncMode::Reconcile
    }
}

/// How an emission is synced.
pub fn sync_mode(degraded: bool, append_only: bool) -> (r: SyncMode)
    ensures
        r == mode_for(degraded, append_only),
{
    if degraded || append_only {
        SyncMode::Additive
    } else {
        SyncMode::Reconcile
    }
}

/// A sync of the entries and what comes after it, by what was done so far.
pub open spec fn syncing(
    id: EpicId,
    epic: Epic,
    count: nat,
    degraded: Option<Seq<char>>,
    entries: Seq<EntryView>,
    h: CycleHistory,
) -> CycleStepView {
    match sync::sync_by_role(
        id,
        epic.feed_role,
        epic.group_by_repo,
        entries,
        mode_for(degraded is Some, epic.feed_append_only),
        h.store@,
    ) {
        SyncStepView::Ask(action) => CycleStepView::Ask(CycleActionView::Store(action)),
        SyncStepView::Failed(why) => CycleStepView::Done(CycleOutcomeView::Failed(why)),
        SyncStepView::Done(outcome, _) => if !h.recalculated {
            CycleStepView::Ask(CycleActionView::Recalculate)
        } else if h.torn_down < outcome.removed.len() {
            CycleStepView::Ask(CycleActionView::TearDown(outcome.removed[h.torn_down as int]))
        } else {
            CycleStepView::Done(
                CycleOutcomeView::Synced {
                    count,
                    affected_epics: outcome.affected_epics,
                    degraded,
                },
            )
        },
    }
}

/// Finding the repositories of the items and syncing them, by what was done so
/// far.
pub open spec fn placing(
    id: EpicId,
    epic: Epic,
    items: Seq<FeedItemView>,
    degraded: Option<Seq<char>>,
    h: CycleHistory,
) -> CycleStepView {
    match h.known_paths {
        None => CycleStepView::Ask(CycleActionView::ListRepoPaths),
        Some(known) => {
            let paths = repos::item_paths(items, text::texts(known@));
            let asked = exec::to_ask(paths);
            if h.replies@.len() < asked.len() {
                CycleStepView::Ask(
                    CycleActionView::Run(
                        process::git_in(
                            asked[h.replies@.len() as int],
                            git::default_branch_args(),
                        ),
                    ),
                )
            } else {
                let branches = exec::base_branches(paths, exec::replies_of(h.replies@));
                syncing(
                    id,
                    epic,
                    items.len(),
                    degraded,
                    entries::zipped(items, paths, branches),
                    h,
                )
            }
        },
    }
}

/// Reading what the command wrote and syncing it, by what was done so far.
pub open spec fn digesting(id: EpicId, epic: Epic, output: FeedOutput, h: CycleHistory) -> CycleStepView {
    match written(output) {
        Err(why) => CycleStepView::Done(CycleOutcomeView::Failed(why)),
        Ok((stdout, stderr)) => match parse::emission(stdout) {
            Err(e) => CycleStepView::Done(
                CycleOutcomeView::Failed("failed to parse JSON output: "@ + e.message()),
            ),
            Ok(items) => match empty_and_degraded(items.len(), stderr) {
                Some(why) => CycleStepView::Done(CycleOutcomeView::Failed(why)),
                None => placing(id, epic, items, partly_degraded(items.len(), stderr), h),
            },
        },
    }
}

/// A cycle, by what was done so far.
pub open spec fn cycle(id: EpicId, h: CycleHistory) -> CycleStepView {
    match h.claimed {
        None => CycleStepView::Ask(CycleActionView::Claim),
        Some(false) => CycleStepView::Done(CycleOutcomeView::Busy),
        Some(true) => match h.epic {
            None => CycleStepView::Ask(CycleActionView::ReadEpic),
            Some(reading) => match command_of(reading) {
                Err(why) => CycleStepView::Done(CycleOutcomeView::Failed(why)),
                Ok(command) => match h.output {
                    None => CycleStepView::Ask(CycleActionView::Execute(command)),
                    Some(output) => digesting(id, reading->Found_0, output, h),
                },
            },
        },
    }
}

fn sync_entries(
    id: EpicId,
    epic: &Epic,
    count: usize,
    degraded: Option<String>,
    all: &Vec<FeedItemWithTarget>,
    h: &CycleHistory,
) -> (r: CycleStep)
    ensures
        r@ == syncing(
            id,
            *epic,
            count as nat,
            models::opt_text(degraded),
            entries::entry_views(all@),
            *h,
        ),
{
    let mode: SyncMode = sync_mode(degraded.is_some(), epic.feed_append_only);
    match sync::run_feed_sync_by_role(id, epic.feed_role, epic.group_by_repo, all, mode, &h.store) {
        SyncStep::Ask(action) => CycleStep::Ask(CycleAction::Store(action)),
        SyncStep::Failed(why) => CycleStep::Done(FeedCycleOutcome::Failed(why)),
        SyncStep::Done(outcome, _) => {
            if !h.recalculated {
                return CycleStep::Ask(CycleAction::Recalculate);
            }
            if h.torn_down < outcome.removed.len() {
                return CycleStep::Ask(
                    CycleAction::TearDown(outcome.removed[h.torn_down].copied()),
                );
            }
            CycleStep::Done(
                FeedCycleOutcome::Synced {
                    count,
                    affected_epics: outcome.affected_epics,
                    degraded,
                },
            )
        },
    }
}

fn place_items(id: EpicId, epic: &Epic, items: Vec<FeedItem>, degraded: Option<String>, h: &CycleHistory) -> (r:
    CycleStep)
    ensures
        r@ == placing(
            id,
            *epic,
            entries::item_views(items@),
            models::opt_text(degraded),
            *h,
        ),
{
    assert(entries::item_views(items@).len() == items@.len());
    let known: &Vec<String> = match &h.known_paths {
        Some(known) => known,
        None => return CycleStep::Ask(CycleAction::ListRepoPaths),
    };
    let paths: Vec<String> = repos::resolve_feed_item_repo_paths(&items, known);
    let asked: Vec<String> = exec::paths_to_ask(&paths);
    assert(text::texts(asked@).len() == asked@.len());
    if h.replies.len() < asked.len() {
        assert(text::texts(asked@)[h.replies@.len() as int] == asked@[h.replies@.len() as int]@);
        return CycleStep::Ask(
            CycleAction::Run(git::default_branch_query(asked[h.replies.len()].as_str())),
        );
    }
    let branches: Vec<String> = exec::resolve_base_branches(&paths, &h.replies);
    let count: usize = items.len();
    let all: Vec<FeedItemWithTarget> = FeedItemWithTarget::zip(items, paths, branches);
    sync_entries(id, epic, count, degraded, &all, h)
}

fn digest(id: EpicId, epic: &Epic, output: &FeedOutput, h: &CycleHistory) -> (r: CycleStep)
    ensures
        r@ == digesting(id, *epic, *output, *h),
{
    let (stdout, stderr): (&Vec<u8>, &String) = match exec_feed_command(output) {
        Ok(written) => written,
        Err(why) => return CycleStep::Done(FeedCycleOutcome::Failed(why)),
    };
    let items: Vec<FeedItem> = match parse::parse_feed_items(stdout.as_slice()) {
        Ok(items) => items,
        Err(e) => {
            let words: String = e.to_message();
            return CycleStep::Done(
                FeedCycleOutcome::Failed(
                    "failed to parse JSON output: ".to_owned().concat(words.as_str()),
                ),
            );
        },
    };
    assert(entries::item_views(items@).len() == items@.len());
    match degraded_empty_emission(items.len(), stderr.as_str()) {
        Some(why) => return CycleStep::Done(FeedCycleOutcome::Failed(why)),
        None => {},
    }
    let degraded: Option<String> = degraded_partial_emission(items.len(), stderr.as_str());
    place_items(id, epic, items, degraded, h)
}

/// Run a cycle. Whoever calls does what it asks for, notes what came of it, and
/// calls again until it is over.
pub fn run_cycle(id: EpicId, h: &CycleHistory) -> (r: CycleStep)
    ensures
        r@ == cycle(id, *h),
{
    let claimed: bool = match h.claimed {
        Some(claimed) => claimed,
        None => return CycleStep::Ask(CycleAction::Claim),
    };
    if !claimed {
        return CycleStep::Done(FeedCycleOutcome::Busy);
    }
    let reading: &EpicReading = match &h.epic {
        Some(reading) => reading,
        None => return CycleStep::Ask(CycleAction::ReadEpic),
    };
    let (epic, command): (&Epic, &String) = match admit_epic(reading) {
        Ok(admitted) => admitted,
        Err(why) => return CycleStep::Done(FeedCycleOutcome::Failed(why)),
    };
    match &h.output {
        Some(output) => digest(id, epic, output, h),
        None => CycleStep::Ask(CycleAction::Execute(command.clone())),
    }
}

/// A request for an epic that another cycle has does nothing at all; and nothing
/// but the claim is asked for before the claim holds.
pub proof fn cycles_for_an_epic_do_not_overlap(id: EpicId, h: CycleHistory)
    ensures
        h.claimed == Some(false) ==> cycle(id, h) == CycleStepView::Done(CycleOutcomeView::Busy),
        cycle(id, h) matches CycleStepView::Ask(a) ==> a is Claim || h.claimed == Some(true),
{
}

/// The command runs only for an epic that was read, is not archived and has it.
pub proof fn only_a_live_epic_runs_its_command(id: EpicId, h: CycleHistory)
    ensures
        cycle(id, h) matches CycleStepView::Ask(CycleActionView::Execute(command)) ==> (h.epic matches Some(
            EpicReading::Found(epic),
        ) && epic.status != TaskStatus::Archived && models::opt_text(epic.feed_command) == Some(
            command,
        )),
{
}

/// The store is touched only for an emission that was read: not for a command
/// that failed, not for output that is refused, and not for an empty emission that
/// came with a complaint.
pub proof fn only_a_sound_emission_reaches_the_board(id: EpicId, h: CycleHistory)
    ensures
        cycle(id, h) matches CycleStepView::Ask(CycleActionView::Store(_)) ==> {
            &&& h.output is Some
            &&& written(h.output->0) is Ok
            &&& parse::emission(written(h.output->0)->Ok_0.0) is Ok
            &&& parse::emission(written(h.output->0)->Ok_0.0)->Ok_0.len() == 0 ==> !complains(
                written(h.output->0)->Ok_0.1,
            )
        },
{
}

/// A cycle whose command complained removes nothing, and neither does one for an
/// epic that only ever grows.
pub proof fn doubtful_emission_removes_nothing(id: EpicId, h: CycleHistory)
    requires
        h.epic matches Some(EpicReading::Found(_)),
        h.output is Some,
        h.epic->0->Found_0.feed_append_only || (written(h.output->0) matches Ok((_, stderr))
            && complains(stderr)),
    ensures
        cycle(id, h) matches CycleStepView::Ask(CycleActionView::Store(a)) ==> !a.removes(),
{
    let epic = h.epic->0->Found_0;
    match (written(h.output->0), h.known_paths) {
        (Ok((stdout, _)), Some(known)) => {
            match parse::emission(stdout) {
                Ok(items) => {
                    let paths = repos::item_paths(items, text::texts(known@));
                    let branches = exec::base_branches(paths, exec::replies_of(h.replies@));
                    sync::additive_sync_removes_nothing(
                        id,
                        epic.feed_role,
                        epic.group_by_repo,
                        entries::zipped(items, paths, branches),
                        h.store@,
                    );
                },
                Err(_) => {},
            }
        },
        _ => {},
    }
}

/// A cycle says that its emission was degraded exactly where the command
/// complained; that an epic only ever grows is no defect.
pub proof fn only_a_complaint_is_reported(id: EpicId, h: CycleHistory)
    ensures
        cycle(id, h) matches CycleStepView::Done(CycleOutcomeView::Synced { degraded, .. }) ==> (
        degraded is Some <==> complains(written(h.output->0)->Ok_0.1)),
{
}

/// A cycle that says that it synced has worked out the epic's status anew and has
/// cleaned up behind every task that the sync removed.
pub proof fn synced_means_cleaned_up(id: EpicId, h: CycleHistory)
    requires
        cycle(id, h) matches CycleStepView::Done(o) && o is Synced,
    ensures
        h.recalculated,
        ({
            let epic = h.epic->0->Found_0;
            let stdout = written(h.output->0)->Ok_0.0;
            let stderr = written(h.output->0)->Ok_0.1;
            let items = parse::emission(stdout)->Ok_0;
            let paths = repos::item_paths(items, text::texts(h.known_paths->0@));
            let branches = exec::base_branches(paths, exec::replies_of(h.replies@));
            let step = sync::sync_by_role(
                id,
                epic.feed_role,
                epic.group_by_repo,
                entries::zipped(items, paths, branches),
                mode_for(partly_degraded(items.len(), stderr) is Some, epic.feed_append_only),
                h.store@,
            );
            &&& step is Done
            &&& step->Done_0.removed.len() <= h.torn_down
        }),
{
}

/// Does the text hold a character that is not white space?
pub open spec fn says_something(stderr: Seq<char>) -> bool {
    exists|i: int| 0 <= i < stderr.len() && !text::is_white(#[trigger] stderr[i])
}

/// Whatever a command writes to its error output, be it one character that is not white
/// space, makes its emission doubtful: an empty one is refused, and one with items is
/// degraded. White space alone makes it neither, and neither judgement is passed on the
/// other's emissions.
pub proof fn any_word_on_stderr_is_a_complaint(count: nat, stderr: Seq<char>)
    ensures
        empty_and_degraded(count, stderr) is Some <==> count == 0 && says_something(stderr),
        partly_degraded(count, stderr) is Some <==> count > 0 && says_something(stderr),
        empty_and_degraded(count, stderr) matches Some(why) ==> text::trim(stderr).is_suffix_of(
            why,
        ),
        partly_degraded(count, stderr) matches Some(why) ==> text::trim(stderr).is_suffix_of(why),
{
    text::trimming_leaves_what_is_not_white(stderr);
    let t = text::trim(stderr);
    let a = "command emitted no items and wrote to stderr: "@ + t;
    let b = "command wrote to stderr: "@ + t;
    assert(a.subrange(a.len() - t.len(), a.len() as int) =~= t);
    assert(b.subrange(b.len() - t.len(), b.len() as int) =~= t);
}

/// Only where neither the emission is doubtful nor the epic only ever grows is anything
/// removed: then, and only then, is a sync to act on what the emission leaves out.
pub proof fn only_a_whole_emission_is_reconciled(degraded: bool, append_only: bool)
    ensures
        mode_for(degraded, append_only) == SyncMode::Reconcile <==> !degraded && !append_only,
{
}

/// The command's output counts only where the command ended with exit code zero: where it
/// could not be started, did not end in time, was killed or ended with another code, the
/// cycle fails without touching the store.
pub proof fn only_a_command_that_ended_well_counts(id: EpicId, h: CycleHistory)
    requires
        h.claimed == Some(true),
        h.epic matches Some(EpicReading::Found(epic)) && epic.status != TaskStatus::Archived
            && epic.feed_command is Some,
        h.output is Some,
        !(h.output->0 matches FeedOutput::Exited { code, .. } && code == Some(0i32)),
    ensures
        cycle(id, h) matches CycleStepView::Done(CycleOutcomeView::Failed(_)),
{
}

/// What a command that ended well wrote is taken as it wrote it.
pub proof fn output_is_taken_as_it_is(stdout: Vec<u8>, stderr: String)
    ensures
        written(FeedOutput::Exited { code: Some(0i32), stdout, stderr }) == Ok::<
            (Seq<u8>, Seq<char>),
            Seq<char>,
        >((stdout@, stderr@)),
{
}

/// An epic that is gone, unreadable, archived or without a command fails its cycle before
/// the command is run; any other has its own command run.
pub proof fn an_epic_without_a_feed_fails(id: EpicId, h: CycleHistory)
    requires
        h.claimed == Some(true),
        h.epic is Some,
    ensures
        !(h.epic->0 is Found) ==> (cycle(id, h) matches CycleStepView::Done(
            CycleOutcomeView::Failed(_),
        )),
        h.epic->0 matches EpicReading::Found(epic) ==> (epic.status == TaskStatus::Archived
            || epic.feed_command is None ==> (cycle(id, h) matches CycleStepView::Done(
            CycleOutcomeView::Failed(_),
        ))),
        h.epic->0 matches EpicReading::Found(epic) ==> (epic.status != TaskStatus::Archived
            && epic.feed_command is Some && h.output is None ==> cycle(id, h) == CycleStepView::Ask(
            CycleActionView::Execute(epic.feed_command->0@),
        )),
{
}

/// What an emission comes to in the store: every item is handed on, with its checkout and
/// its base branch, in the order of the emission; a doubtful emission, or one for an epic
/// that only ever grows, to be added, and any other to be all there is. Nothing is handed
/// on from an empty emission of a command that complained, nor from one that is refused.
pub proof fn every_item_is_handed_on(id: EpicId, h: CycleHistory, stdout: Seq<u8>, stderr: Seq<char>)
    requires
        h.claimed == Some(true),
        h.epic matches Some(EpicReading::Found(epic)) && epic.status != TaskStatus::Archived
            && epic.feed_command is Some,
        h.output matches Some(FeedOutput::Exited { code, stdout: o, stderr: e }) && code == Some(
            0i32,
        ) && o@ == stdout && e@ == stderr,
        h.known_paths is Some,
        parse::emission(stdout) matches Ok(items) && h.replies@.len() >= exec::to_ask(
            repos::item_paths(items, text::texts(h.known_paths->0@)),
        ).len(),
    ensures
        ({
            let epic = h.epic->0->Found_0;
            let items = parse::emission(stdout)->Ok_0;
            let paths = repos::item_paths(items, text::texts(h.known_paths->0@));
            let branches = exec::base_branches(paths, exec::replies_of(h.replies@));
            let handed = entries::zipped(items, paths, branches);
            let mode = if says_something(stderr) || epic.feed_append_only {
                SyncMode::Additive
            } else {
                SyncMode::Reconcile
            };
            let step = sync::sync_by_role(
                id,
                epic.feed_role,
                epic.group_by_repo,
                handed,
                mode,
                h.store@,
            );
            &&& handed.len() == items.len()
            &&& forall|i: int| 0 <= i < items.len() ==> (#[trigger] handed[i]).item == items[i]
            &&& items.len() == 0 && says_something(stderr) ==> (cycle(
                id,
                h,
            ) matches CycleStepView::Done(CycleOutcomeView::Failed(_)))
            &&& !(items.len() == 0 && says_something(stderr)) ==> {
                &&& step matches SyncStepView::Ask(a) ==> cycle(id, h) == CycleStepView::Ask(
                    CycleActionView::Store(a),
                )
                &&& step is Failed ==> (cycle(id, h) matches CycleStepView::Done(
                    CycleOutcomeView::Failed(_),
                ))
                &&& step is Done && !h.recalculated ==> cycle(id, h) == CycleStepView::Ask(
                    CycleActionView::Recalculate,
                )
                &&& step matches SyncStepView::Done(o, _) ==> (h.recalculated && h.torn_down
                    < o.removed.len() ==> cycle(id, h) == CycleStepView::Ask(
                    CycleActionView::TearDown(o.removed[h.torn_down as int]),
                ))
                &&& step matches SyncStepView::Done(o, _) ==> (h.recalculated && h.torn_down
                    >= o.removed.len() ==> (cycle(id, h) matches CycleStepView::Done(
                    CycleOutcomeView::Synced { count, affected_epics, degraded },
                ) && count == items.len() && affected_epics == o.affected_epics && (degraded is Some
                    <==> says_something(stderr))))
            }
        }),
{
    let items = parse::emission(stdout)->Ok_0;
    any_word_on_stderr_is_a_complaint(items.len(), stderr);
}

/// What is said where no cycle can run, and of a command that failed or is not to be
/// trusted, word for word.
pub proof fn a_failed_cycle_is_told_in_these_words(
    why: String,
    code: Option<i32>,
    stdout: Vec<u8>,
    stderr: String,
    count: nat,
)
    ensures
        command_of(EpicReading::Missing) == Err::<Seq<char>, Seq<char>>("epic no longer exists"@),
        command_of(EpicReading::Unreadable(why)) == Err::<Seq<char>, Seq<char>>(
            "failed to read epic: "@ + why@,
        ),
        written(FeedOutput::NotRun(why)) == Err::<(Seq<u8>, Seq<char>), Seq<char>>(
            "failed to spawn command: "@ + why@,
        ),
        written(FeedOutput::TimedOut) == Err::<(Seq<u8>, Seq<char>), Seq<char>>(
            "command timed out"@,
        ),
        code != Some(0i32) ==> written(FeedOutput::Exited { code, stdout, stderr }) == Err::<
            (Seq<u8>, Seq<char>),
            Seq<char>,
        >("command exited non-zero: "@ + stderr@),
        empty_and_degraded(count, stderr@) matches Some(told) ==> told
            == "command emitted no items and wrote to stderr: "@ + text::trim(stderr@),
        partly_degraded(count, stderr@) matches Some(told) ==> told
            == "command wrote to stderr: "@ + text::trim(stderr@),
{
}

/// An epic that is archived has no cycle, and neither has one without a command; each is
/// told so.
pub proof fn an_epic_without_a_cycle_is_told_why(epic: Epic)
    ensures
        epic.status == TaskStatus::Archived ==> command_of(EpicReading::Found(epic)) == Err::<
            Seq<char>,
            Seq<char>,
        >("epic is archived"@),
        epic.status != TaskStatus::Archived && epic.feed_command is None ==> command_of(
            EpicReading::Found(epic),
        ) == Err::<Seq<char>, Seq<char>>("epic has no feed command"@),
        epic.status != TaskStatus::Archived ==> (epic.feed_command matches Some(command)
            ==> command_of(EpicReading::Found(epic)) == Ok::<Seq<char>, Seq<char>>(command@)),
{
}

/// A cycle starts by being claimed; one that is not its own is left alone; the epic is read
/// then, and its own command is run.
pub proof fn a_cycle_is_claimed_before_anything_else(id: EpicId, h: CycleHistory)
    ensures
        h.claimed is None ==> cycle(id, h) == CycleStepView::Ask(CycleActionView::Claim),
        h.claimed == Some(false) ==> cycle(id, h) == CycleStepView::Done(CycleOutcomeView::Busy),
        h.claimed == Some(true) && h.epic is None ==> cycle(id, h) == CycleStepView::Ask(
            CycleActionView::ReadEpic,
        ),
        h.claimed == Some(true) && h.output is None ==> (h.epic matches Some(reading) ==> (
        command_of(reading) matches Ok(command) ==> cycle(id, h) == CycleStepView::Ask(
            CycleActionView::Execute(command),
        ))),
{
}

/// Output that is no emission ends the cycle, and is told with what is wrong with it.
pub proof fn what_is_no_emission_is_told(id: EpicId, epic: Epic, h: CycleHistory, output: FeedOutput)
    requires
        output matches FeedOutput::Exited { code, stdout, .. } && code == Some(0i32)
            && parse::emission(stdout@) is Err,
    ensures
        digesting(id, epic, output, h) == CycleStepView::Done(
            CycleOutcomeView::Failed(
                "failed to parse JSON output: "@ + parse::emission(
                    output->Exited_stdout@,
                )->Err_0.message(),
            ),
        ),
{
}

/// Once the sync is done, the epic's status is worked out anew, then each task that is gone
/// is torn down, in order, and then the cycle says how many items there were and which
/// epics they affected.
pub proof fn what_is_gone_is_torn_down_in_order(
    id: EpicId,
    epic: Epic,
    count: nat,
    degraded: Option<Seq<char>>,
    entries: Seq<EntryView>,
    h: CycleHistory,
)
    requires
        sync::sync_by_role(
            id,
            epic.feed_role,
            epic.group_by_repo,
            entries,
            if degraded is Some || epic.feed_append_only {
                SyncMode::Additive
            } else {
                SyncMode::Reconcile
            },
            h.store@,
        ) is Done,
    ensures
        ({
            let outcome = sync::sync_by_role(
                id,
                epic.feed_role,
                epic.group_by_repo,
                entries,
                if degraded is Some || epic.feed_append_only {
                    SyncMode::Additive
                } else {
                    SyncMode::Reconcile
                },
                h.store@,
            )->Done_0;
            let step = syncing(id, epic, count, degraded, entries, h);
            &&& !h.recalculated ==> step == CycleStepView::Ask(CycleActionView::Recalculate)
            &&& h.recalculated && h.torn_down < outcome.removed.len() ==> step
                == CycleStepView::Ask(
                CycleActionView::TearDown(outcome.removed[h.torn_down as int]),
            )
            &&& h.recalculated && h.torn_down >= outcome.removed.len() ==> step
                == CycleStepView::Done(
                CycleOutcomeView::Synced {
                    count,
                    affected_epics: outcome.affected_epics,
                    degraded,
                },
            )
        }),
{
}

} // verus!

//! The board's data: tasks, epics, feed items, and the words that name their
//! states in files and on the wire.

use vstd::prelude::*;

use crate::text;

verus! {

/// Identity of a task.
#[derive(Clone, Copy, Debug, PartialEq, Eq, Hash, Structural)]
pub struct TaskId(pub i64);

/// Identity of an epic.
#[derive(Clone, Copy, Debug, PartialEq, Eq, Hash, Structural)]
pub struct EpicId(pub i64);

impl View for EpicId {
    type V = EpicId;

    open spec fn view(&self) -> EpicId {
        *self
    }
}

/// Where a task or an epic stands on the board.
#[derive(Clone, Copy, Debug, PartialEq, Eq, Structural)]
pub enum TaskStatus {
    Backlog,
    Running,
    Done,
    Archived,
}

impl TaskStatus {
    /// The word for this status.
    pub open spec fn word(self) -> Seq<char> {
        match self {
            TaskStatus::Backlog => "backlog"@,
            TaskStatus::Running => "running"@,
            TaskStatus::Done => "done"@,
            TaskStatus::Archived => "archived"@,
        }
    }

    pub fn as_str(self) -> (r: &'static str)
        ensures
            r@ == self.word(),
    {
        match self {
            TaskStatus::Backlog => "backlog",
            TaskStatus::Running => "running",
            TaskStatus::Done => "done",
            TaskStatus::Archived => "archived",
        }
    }

    /// The one that `s` names, if it names one.
    pub open spec fn named(s: Seq<char>) -> Option<TaskStatus> {
        if s == "backlog"@ {
            Some(TaskStatus::Backlog)
        } else if s == "running"@ {
            Some(TaskStatus::Running)
        } else if s == "done"@ {
            Some(TaskStatus::Done)
        } else if s == "archived"@ {
            Some(TaskStatus::Archived)
        } else {
            None
        }
    }

    /// The status that `s` names, if it names one.
    pub fn parse(s: &str) -> (r: Option<TaskStatus>)
        ensures
            r == TaskStatus::named(s@),
    {
        if text::same(s, "backlog") {
            Some(TaskStatus::Backlog)
        } else if text::same(s, "running") {
            Some(TaskStatus::Running)
        } else if text::same(s, "done") {
            Some(TaskStatus::Done)
        } else if text::same(s, "archived") {
            Some(TaskStatus::Archived)
        } else {
            None
        }
    }
}

/// What kind of work a task is.
#[derive(Clone, Copy, Debug, PartialEq, Eq, Structural)]
pub enum TaskTag {
    Bug,
    Fix,
    Chore,
    PrReview,
    Dependabot,
}

impl TaskTag {
    /// The word for this tag.
    pub open spec fn word(self) -> Seq<char> {
        match self {
            TaskTag::Bug => "bug"@,
            TaskTag::Fix => "fix"@,
            TaskTag::Chore => "chore"@,
            TaskTag::PrReview => "pr-review"@,
            TaskTag::Dependabot => "dependabot"@,
        }
    }

    pub fn as_str(self) -> (r: &'static str)
        ensures
            r@ == self.word(),
    {
        match self {
            TaskTag::Bug => "bug",
            TaskTag::Fix => "fix",
            TaskTag::Chore => "chore",
            TaskTag::PrReview => "pr-review",
            TaskTag::Dependabot => "dependabot",
        }
    }

    /// The one that `s` names, if it names one.
    pub open spec fn named(s: Seq<char>) -> Option<TaskTag> {
        if s == "bug"@ {
            Some(TaskTag::Bug)
        } else if s == "fix"@ {
            Some(TaskTag::Fix)
        } else if s == "chore"@ {
            Some(TaskTag::Chore)
        } else if s == "pr-review"@ {
            Some(TaskTag::PrReview)
        } else if s == "dependabot"@ {
            Some(TaskTag::Dependabot)
        } else {
            None
        }
    }

    /// The tag that `s` names, if it names one.
    pub fn parse(s: &str) -> (r: Option<TaskTag>)
        ensures
            r == TaskTag::named(s@),
    {
        if text::same(s, "bug") {
            Some(TaskTag::Bug)
        } else if text::same(s, "fix") {
            Some(TaskTag::Fix)
        } else if text::same(s, "chore") {
            Some(TaskTag::Chore)
        } else if text::same(s, "pr-review") {
            Some(TaskTag::PrReview)
        } else if text::same(s, "dependabot") {
            Some(TaskTag::Dependabot)
        } else {
            None
        }
    }

    /// Does the tag mark a review of somebody's pull request?
    pub open spec fn reviews(self) -> bool {
        self == TaskTag::PrReview || self == TaskTag::Dependabot
    }

    pub fn is_review(self) -> (r: bool)
        ensures
            r == self.reviews(),
    {
        matches!(self, TaskTag::PrReview | TaskTag::Dependabot)
    }
}

/// How a finished task is brought home.
#[derive(Clone, Copy, Debug, PartialEq, Eq, Structural)]
pub enum WrapUpMode {
    Rebase,
    Pr,
    Done,
}

impl WrapUpMode {
    /// The word for this mode.
    pub open spec fn word(self) -> Seq<char> {
        match self {
            WrapUpMode::Rebase => "rebase"@,
            WrapUpMode::Pr => "pr"@,
            WrapUpMode::Done => "done"@,
        }
    }

    pub fn as_str(self) -> (r: &'static str)
        ensures
            r@ == self.word(),
    {
        match self {
            WrapUpMode::Rebase => "rebase",
            WrapUpMode::Pr => "pr",
            WrapUpMode::Done => "done",
        }
    }

    /// The one that `s` names, if it names one.
    pub open spec fn named(s: Seq<char>) -> Option<WrapUpMode> {
        if s == "rebase"@ {
            Some(WrapUpMode::Rebase)
        } else if s == "pr"@ {
            Some(WrapUpMode::Pr)
        } else if s == "done"@ {
            Some(WrapUpMode::Done)
        } else {
            None
        }
    }

    /// The mode that `s` names, if it names one.
    pub fn parse(s: &str) -> (r: Option<WrapUpMode>)
        ensures
            r == WrapUpMode::named(s@),
    {
        if text::same(s, "rebase") {
            Some(WrapUpMode::Rebase)
        } else if text::same(s, "pr") {
            Some(WrapUpMode::Pr)
        } else if text::same(s, "done") {
            Some(WrapUpMode::Done)
        } else {
            None
        }
    }
}

/// What a task's url leads to.
#[derive(Clone, Copy, Debug, PartialEq, Eq, Structural)]
pub enum UrlType {
    Pr,
    SecurityAlert,
    Issue,
    Other,
}

/// The type that a url shows by its path: `/pull/` a pull request, else
/// `/issues/` an issue, else something other. A security alert never shows.
pub open spec fn shown_type(url: Seq<char>) -> UrlType {
    if text::has(url, "/pull/"@) {
        UrlType::Pr
    } else if text::has(url, "/issues/"@) {
        UrlType::Issue
    } else {
        UrlType::Other
    }
}

impl UrlType {
    /// The word for this type.
    pub open spec fn word(self) -> Seq<char> {
        match self {
            UrlType::Pr => "pr"@,
            UrlType::SecurityAlert => "security_alert"@,
            UrlType::Issue => "issue"@,
            UrlType::Other => "other"@,
        }
    }

    pub fn as_str(self) -> (r: &'static str)
        ensures
            r@ == self.word(),
    {
        match self {
            UrlType::Pr => "pr",
            UrlType::SecurityAlert => "security_alert",
            UrlType::Issue => "issue",
            UrlType::Other => "other",
        }
    }

    /// The one that `s` names, if it names one.
    pub open spec fn named(s: Seq<char>) -> Option<UrlType> {
        if s == "pr"@ {
            Some(UrlType::Pr)
        } else if s == "security_alert"@ {
            Some(UrlType::SecurityAlert)
        } else if s == "issue"@ {
            Some(UrlType::Issue)
        } else if s == "other"@ {
            Some(UrlType::Other)
        } else {
            None
        }
    }

    /// The type that `s` names, if it names one.
    pub fn parse(s: &str) -> (r: Option<UrlType>)
        ensures
            r == UrlType::named(s@),
    {
        if text::same(s, "pr") {
            Some(UrlType::Pr)
        } else if text::same(s, "security_alert") {
            Some(UrlType::SecurityAlert)
        } else if text::same(s, "issue") {
            Some(UrlType::Issue)
        } else if text::same(s, "other") {
            Some(UrlType::Other)
        } else {
            None
        }
    }

    /// The type that the url shows by its path.
    pub fn infer(url: &str) -> (r: UrlType)
        ensures
            r == shown_type(url@),
    {
        if text::contains(url, "/pull/") {
            UrlType::Pr
        } else if text::contains(url, "/issues/") {
            UrlType::Issue
        } else {
            UrlType::Other
        }
    }
}

/// Every status, tag, mode and url type is read back from its own word.
pub proof fn words_are_read_back()
    ensures
        forall|a: TaskStatus| TaskStatus::named(#[trigger] a.word()) == Some(a),
        forall|a: TaskTag| TaskTag::named(#[trigger] a.word()) == Some(a),
        forall|a: WrapUpMode| WrapUpMode::named(#[trigger] a.word()) == Some(a),
        forall|a: UrlType| UrlType::named(#[trigger] a.word()) == Some(a),
{
    reveal_strlit("backlog");
    reveal_strlit("running");
    reveal_strlit("done");
    reveal_strlit("archived");
    reveal_strlit("bug");
    reveal_strlit("fix");
    reveal_strlit("chore");
    reveal_strlit("pr-review");
    reveal_strlit("dependabot");
    reveal_strlit("rebase");
    reveal_strlit("pr");
    reveal_strlit("security_alert");
    reveal_strlit("issue");
    reveal_strlit("other");
    assert("backlog"@.len() == 7 && "running"@.len() == 7 && "done"@.len() == 4
        && "archived"@.len() == 8);
    assert("bug"@.len() == 3 && "fix"@.len() == 3 && "chore"@.len() == 5 && "pr-review"@.len() == 9
        && "dependabot"@.len() == 10);
    assert("rebase"@.len() == 6 && "pr"@.len() == 2 && "security_alert"@.len() == 14
        && "issue"@.len() == 5 && "other"@.len() == 5);
    assert("backlog"@ != "running"@) by {
        assert("backlog"@[0] == 'b' && "running"@[0] == 'r');
    }
    assert("bug"@ != "fix"@) by {
        assert("bug"@[0] == 'b' && "fix"@[0] == 'f');
    }
    assert("issue"@ != "other"@) by {
        assert("issue"@[0] == 'i' && "other"@[0] == 'o');
    }
}

/// A url with what it leads to.
#[derive(Clone, Debug, PartialEq, Eq)]
pub struct TaskUrl {
    pub url: String,
    pub url_type: UrlType,
}

impl TaskUrl {
    pub fn new(url: String, url_type: UrlType) -> (r: TaskUrl)
        ensures
            r.url == url,
            r.url_type == url_type,
    {
        TaskUrl { url, url_type }
    }
}

/// What two urls have in common where they are the same: text and type.
impl View for TaskUrl {
    type V = (Seq<char>, UrlType);

    open spec fn view(&self) -> (Seq<char>, UrlType) {
        (self.url@, self.url_type)
    }
}

/// The text of an optional string, where there is one.
pub open spec fn opt_text(s: Option<String>) -> Option<Seq<char>> {
    match s {
        Some(s) => Some(s@),
        None => None,
    }
}

/// The text of an optional string, or no text.
pub open spec fn text_or_empty(s: Option<String>) -> Seq<char> {
    match s {
        Some(s) => s@,
        None => Seq::empty(),
    }
}

/// A task on the board.
#[derive(Clone, Debug)]
pub struct Task {
    pub id: TaskId,
    pub title: String,
    pub description: String,
    pub repo_path: String,
    pub status: TaskStatus,
    pub plan_path: Option<String>,
    pub tag: Option<TaskTag>,
    pub base_branch: String,
    pub wrap_up_mode: Option<WrapUpMode>,
    pub url: Option<TaskUrl>,
    pub phoenix: bool,
    /// The feed's name for it; a task without one was made by hand.
    pub external_id: Option<String>,
    pub epic_id: Option<EpicId>,
}

impl Default for Task {
    fn default() -> (r: Task)
        ensures
            r.id == TaskId(0),
            r.title@ == Seq::<char>::empty(),
            r.description@ == Seq::<char>::empty(),
            r.repo_path@ == Seq::<char>::empty(),
            r.status == TaskStatus::Backlog,
            r.plan_path is None,
            r.tag is None,
            r.base_branch@ == "main"@,
            r.wrap_up_mode is None,
            r.url is None,
            !r.phoenix,
            r.external_id is None,
            r.epic_id is None,
    {
        Task {
            id: TaskId(0),
            title: String::new(),
            description: String::new(),
            repo_path: String::new(),
            status: TaskStatus::Backlog,
            plan_path: None,
            tag: None,
            base_branch: "main".to_owned(),
            wrap_up_mode: None,
            url: None,
            phoenix: false,
            external_id: None,
            epic_id: None,
        }
    }
}

/// The part an epic plays in the reviews subtree.
#[derive(Clone, Copy, Debug, PartialEq, Eq, Hash, Structural)]
pub enum FeedRole {
    NoRole,
    ReviewsParent,
    MyReviews,
    TeamReviews,
    Bots,
    Cve,
}

/// How an epic came to be.
#[derive(Clone, Copy, Debug, PartialEq, Eq, Structural)]
pub enum EpicOrigin {
    Manual,
    RepoGroup,
}

/// An epic: a task list of its own, optionally filled by a feed command.
#[derive(Clone, Debug)]
pub struct Epic {
    pub id: EpicId,
    pub title: String,
    pub description: String,
    pub status: TaskStatus,
    pub feed_command: Option<String>,
    pub feed_interval_secs: Option<i64>,
    pub group_by_repo: bool,
    pub feed_append_only: bool,
    pub feed_role: FeedRole,
    pub origin: EpicOrigin,
}

impl Epic {
    /// May a sync sort this epic's tasks into one sub-epic for each repository?
    pub fn can_auto_group(&self) -> (r: bool)
        ensures
            r == self.group_by_repo,
    {
        self.group_by_repo
    }
}

/// Why a pull request is in a reviews emission.
#[derive(Clone, Copy, Debug, PartialEq, Eq, Structural)]
pub enum Signal {
    DirectRequest,
    TeamRequest,
    Reviewed,
    Commented,
    AuthorBot,
    AuthorMe,
    OrgReview,
    Approved,
}

impl Signal {
    /// The one that `s` names, if it names one.
    pub open spec fn named(s: Seq<char>) -> Option<Signal> {
        if s == "direct-request"@ {
            Some(Signal::DirectRequest)
        } else if s == "team-request"@ {
            Some(Signal::TeamRequest)
        } else if s == "reviewed"@ {
            Some(Signal::Reviewed)
        } else if s == "commented"@ {
            Some(Signal::Commented)
        } else if s == "author-bot"@ {
            Some(Signal::AuthorBot)
        } else if s == "author-me"@ {
            Some(Signal::AuthorMe)
        } else if s == "org-review"@ {
            Some(Signal::OrgReview)
        } else if s == "approved"@ {
            Some(Signal::Approved)
        } else {
            None
        }
    }

    /// The signal that `s` names, if it names one.
    pub fn parse(s: &str) -> (r: Option<Signal>)
        ensures
            r == Signal::named(s@),
    {
        if text::same(s, "direct-request") {
            Some(Signal::DirectRequest)
        } else if text::same(s, "team-request") {
            Some(Signal::TeamRequest)
        } else if text::same(s, "reviewed") {
            Some(Signal::Reviewed)
        } else if text::same(s, "commented") {
            Some(Signal::Commented)
        } else if text::same(s, "author-bot") {
            Some(Signal::AuthorBot)
        } else if text::same(s, "author-me") {
            Some(Signal::AuthorMe)
        } else if text::same(s, "org-review") {
            Some(Signal::OrgReview)
        } else if text::same(s, "approved") {
            Some(Signal::Approved)
        } else {
            None
        }
    }
}

/// One item of a feed emission.
#[derive(Clone, Debug)]
pub struct FeedItem {
    pub external_id: String,
    pub title: String,
    pub description: String,
    pub url: String,
    pub url_type: Option<UrlType>,
    pub status: TaskStatus,
    pub tag: TaskTag,
    pub labels: Vec<String>,
    pub sort_order: Option<i64>,
    pub signals: Vec<Signal>,
    pub wrap_up_mode: Option<WrapUpMode>,
}

/// [`FeedItem`] as values.
#[verifier::ext_equal]
pub struct FeedItemView {
    pub external_id: Seq<char>,
    pub title: Seq<char>,
    pub description: Seq<char>,
    pub url: Seq<char>,
    pub url_type: Option<UrlType>,
    pub status: TaskStatus,
    pub tag: TaskTag,
    pub labels: Seq<Seq<char>>,
    pub sort_order: Option<i64>,
    pub signals: Seq<Signal>,
    pub wrap_up_mode: Option<WrapUpMode>,
}

impl View for FeedItem {
    type V = FeedItemView;

    open spec fn view(&self) -> FeedItemView {
        FeedItemView {
            external_id: self.external_id@,
            title: self.title@,
            description: self.description@,
            url: self.url@,
            url_type: self.url_type,
            status: self.status,
            tag: self.tag,
            labels: text::texts(self.labels@),
            sort_order: self.sort_order,
            signals: self.signals@,
            wrap_up_mode: self.wrap_up_mode,
        }
    }
}

impl FeedItemView {
    /// What the item's url leads to: what the item says, else what the url shows.
    pub open spec fn resolved_type(self) -> UrlType {
        match self.url_type {
            Some(url_type) => url_type,
            None => shown_type(self.url),
        }
    }

    /// An item for a review has to name the pull request to review.
    pub open spec fn valid(self) -> bool {
        self.tag.reviews() ==> self.url.len() > 0 && self.resolved_type() == UrlType::Pr
    }
}

impl FeedItem {
    /// Is the item one that a feed may emit?
    pub fn validate(&self) -> (r: bool)
        ensures
            r == self@.valid(),
    {
        if !self.tag.is_review() {
            return true;
        }
        if self.url.as_str().is_empty() {
            return false;
        }
        match self.url_type {
            Some(url_type) => url_type == UrlType::Pr,
            None => UrlType::infer(self.url.as_str()) == UrlType::Pr,
        }
    }
}

/// A change to a text field that may be empty.
#[derive(Clone, Debug, PartialEq, Eq)]
pub enum FieldUpdate {
    SetTo(String),
    Clear,
}

impl FieldUpdate {
    /// The text that the field holds after the change.
    pub open spec fn value(self) -> Option<Seq<char>> {
        match self {
            FieldUpdate::SetTo(s) => Some(s@),
            FieldUpdate::Clear => None,
        }
    }

    /// An empty text clears the field, any other is set.
    pub fn from_string(s: String) -> (r: FieldUpdate)
        ensures
            r.value() == if s@.len() == 0 {
                None
            } else {
                Some(s@)
            },
    {
        if s.as_str().is_empty() {
            FieldUpdate::Clear
        } else {
            FieldUpdate::SetTo(s)
        }
    }

    /// The text that the field holds after the change.
    pub fn as_option(&self) -> (r: Option<&str>)
        ensures
            match (r, self.value()) {
                (Some(s), Some(v)) => s@ == v,
                (None, None) => true,
                _ => false,
            },
    {
        match self {
            FieldUpdate::SetTo(s) => Some(s.as_str()),
            FieldUpdate::Clear => None,
        }
    }
}

/// A change to a task's url.
#[derive(Clone, Debug, PartialEq, Eq)]
pub enum UrlUpdate {
    SetTo(TaskUrl),
    Clear,
}

/// What stands for the user's home directory at the front of a path is the
/// home directory itself; any other path is as it is.
pub open spec fn tilde_expanded(path: Seq<char>, home: Seq<char>) -> Seq<char> {
    if path == "~"@ {
        home
    } else if "~/"@.is_prefix_of(path) {
        home + path.skip(1)
    } else {
        path
    }
}

pub fn expand_tilde(path: &str, home: &str) -> (r: String)
    ensures
        r@ == tilde_expanded(path@, home@),
{
    if text::same(path, "~") {
        home.to_owned()
    } else if text::starts_with(path, "~/") {
        proof {
            reveal_strlit("~/");
        }
        let n: usize = path.unicode_len();
        let rest = path.substring_char(1, n);
        assert(rest@ =~= path@.skip(1));
        home.to_owned().concat(rest)
    } else {
        path.to_owned()
    }
}

/// Examples of intervals that [`parse_interval_secs`] reads.
pub const INTERVAL_EXAMPLES: &'static str = "300, 30s, 10m, 2h";

/// Seconds in the unit that an interval's last character names; `None` where it
/// names none.
pub open spec fn unit_secs(c: char) -> Option<nat> {
    if c == 's' {
        Some(1)
    } else if c == 'm' {
        Some(60)
    } else if c == 'h' {
        Some(3600)
    } else if c == 'd' {
        Some(86400)
    } else {
        None
    }
}

/// The seconds that an interval says: a number of seconds, or a number with a
/// unit behind it; `None` where it says none.
pub open spec fn interval_value(s: Seq<char>) -> Option<nat> {
    if text::is_numeral(s) {
        Some(text::digits_value(s))
    } else if s.len() > 0 && unit_secs(s.last()) is Some && text::is_numeral(s.drop_last()) {
        Some(text::digits_value(s.drop_last()) * unit_secs(s.last())->0)
    } else {
        None
    }
}

/// The seconds that `s` says, where that is an interval that can be waited for:
/// not nothing, and not past what the field holds.
pub open spec fn interval_secs(s: Seq<char>) -> Option<i64> {
    match interval_value(s) {
        Some(n) => if 0 < n <= i64::MAX {
            Some(n as i64)
        } else {
            None
        },
        None => None,
    }
}

fn secs_in_range(n: u64, unit: u64) -> (r: Option<i64>)
    requires
        1 <= unit <= 86400,
    ensures
        r == if 0 < n * unit <= i64::MAX {
            Some((n * unit) as i64)
        } else {
            None::<i64>
        },
{
    let most: u64 = 0x7fff_ffff_ffff_ffff;
    proof {
        vstd::arithmetic::mul::lemma_mul_strictly_positive(n as int, unit as int);
        assert(n == 0 ==> n * unit == 0) by (nonlinear_arith);
        assert(n <= most / unit ==> n * unit <= most) by (nonlinear_arith)
            requires
                unit >= 1,
        ;
        assert(n > most / unit ==> n * unit > most) by (nonlinear_arith)
            requires
                unit >= 1,
        ;
    }
    if n == 0 || n > most / unit {
        None
    } else {
        Some((n * unit) as i64)
    }
}

pub fn parse_interval_secs(s: &str) -> (r: Option<i64>)
    ensures
        r == interval_secs(s@),
{
    let cs: Vec<char> = text::chars_of(s);
    if cs.len() == 0 {
        return None;
    }
    let last: char = cs[cs.len() - 1];
    if '0' <= last && last <= '9' {
        match text::numeral_value(s) {
            Some(n) => secs_in_range(n, 1),
            None => {
                proof {
                    assert(text::is_digit(s@.last()));
                    assert(unit_secs(s@.last()) is None);
                }
                None
            },
        }
    } else {
        let unit: u64 = if last == 's' {
            1
        } else if last == 'm' {
            60
        } else if last == 'h' {
            3600
        } else if last == 'd' {
            86400
        } else {
            assert(!text::is_digit(s@[s@.len() - 1]));
            return None;
        };
        let head = s.substring_char(0, cs.len() - 1);
        assert(head@ =~= s@.drop_last());
        assert(!text::is_digit(s@[s@.len() - 1]));
        match text::numeral_value(head) {
            Some(n) => secs_in_range(n, unit),
            None => {
                proof {
                    if text::is_numeral(head@) {
                        let n = text::digits_value(head@) as int;
                        assert(n * unit > i64::MAX) by (nonlinear_arith)
                            requires
                                n > u64::MAX,
                                unit >= 1,
                        ;
                    }
                }
                None
            },
        }
    }
}

/// A url shows a pull request wherever `/pull/` stands in it, an issue where `/issues/`
/// does and `/pull/` does not, and otherwise nothing of the kind.
pub proof fn a_url_shows_what_it_leads_to(a: Seq<char>, b: Seq<char>, url: Seq<char>)
    ensures
        shown_type(a + "/pull/"@ + b) == UrlType::Pr,
        shown_type(a + "/issues/"@ + b) == UrlType::Issue || shown_type(a + "/issues/"@ + b)
            == UrlType::Pr,
        !text::has(url, "/pull/"@) && text::has(url, "/issues/"@) ==> shown_type(url)
            == UrlType::Issue,
        !text::has(url, "/pull/"@) && !text::has(url, "/issues/"@) ==> shown_type(url)
            == UrlType::Other,
        shown_type(url) == UrlType::Pr ==> text::has(url, "/pull/"@),
{
    let s = a + "/pull/"@ + b;
    assert(s.subrange(a.len() as int, (a.len() + "/pull/"@.len()) as int) =~= "/pull/"@);
    assert(text::stands_at(s, a.len() as int, "/pull/"@));
    let t = a + "/issues/"@ + b;
    assert(t.subrange(a.len() as int, (a.len() + "/issues/"@.len()) as int) =~= "/issues/"@);
    assert(text::stands_at(t, a.len() as int, "/issues/"@));
}

/// A tag marks a review exactly where it is one for a pull request or for a bot's; an item
/// with such a tag has to have a url that leads to a pull request, as the item says or,
/// where it does not say, as the url shows; any other item may have any url.
pub proof fn a_review_names_its_pull_request(item: FeedItemView)
    ensures
        item.tag == TaskTag::Bug || item.tag == TaskTag::Fix || item.tag == TaskTag::Chore
            ==> item.valid(),
        item.tag == TaskTag::PrReview || item.tag == TaskTag::Dependabot ==> {
            &&& item.url.len() == 0 ==> !item.valid()
            &&& item.url.len() > 0 && item.url_type is Some ==> (item.valid() <==> item.url_type
                == Some(UrlType::Pr))
            &&& item.url.len() > 0 && item.url_type is None ==> (item.valid() <==> text::has(
                item.url,
                "/pull/"@,
            ))
        },
{
}

/// Every signal has a word of its own, and no other word names one.
pub proof fn each_signal_has_its_word(s: Seq<char>)
    ensures
        Signal::named(s) == Some(Signal::DirectRequest) <==> s == "direct-request"@,
        Signal::named(s) == Some(Signal::TeamRequest) <==> s == "team-request"@,
        Signal::named(s) == Some(Signal::Reviewed) <==> s == "reviewed"@,
        Signal::named(s) == Some(Signal::Commented) <==> s == "commented"@,
        Signal::named(s) == Some(Signal::AuthorBot) <==> s == "author-bot"@,
        Signal::named(s) == Some(Signal::AuthorMe) <==> s == "author-me"@,
        Signal::named(s) == Some(Signal::OrgReview) <==> s == "org-review"@,
        Signal::named(s) == Some(Signal::Approved) <==> s == "approved"@,
{
    reveal_strlit("direct-request");
    reveal_strlit("team-request");
    reveal_strlit("reviewed");
    reveal_strlit("commented");
    reveal_strlit("author-bot");
    reveal_strlit("author-me");
    reveal_strlit("org-review");
    reveal_strlit("approved");
    assert("direct-request"@.len() == 14 && "team-request"@.len() == 12 && "reviewed"@.len() == 8
        && "commented"@.len() == 9 && "author-bot"@.len() == 10 && "author-me"@.len() == 9
        && "org-review"@.len() == 10 && "approved"@.len() == 8);
    assert("reviewed"@[0] == 'r' && "approved"@[0] == 'a');
    assert("commented"@[0] == 'c' && "author-me"@[0] == 'a');
    assert("author-bot"@[0] == 'a' && "org-review"@[0] == 'o');
}

/// A tilde stands for the home directory only where it is all of the path or has a slash
/// behind it; a tilde elsewhere, or in front of a user's name, is as it is.
pub proof fn a_tilde_is_the_home_directory(rest: Seq<char>, path: Seq<char>, home: Seq<char>)
    ensures
        tilde_expanded(seq!['~'], home) == home,
        tilde_expanded(seq!['~', '/'] + rest, home) == home + seq!['/'] + rest,
        path.len() == 0 || path[0] != '~' ==> tilde_expanded(path, home) == path,
        path.len() > 1 && path[1] != '/' ==> tilde_expanded(path, home) == path,
{
    reveal_strlit("~");
    reveal_strlit("~/");
    assert(seq!['~'] =~= "~"@);
    let s = seq!['~', '/'] + rest;
    assert(s.subrange(0, 2) =~= "~/"@);
    assert(s.skip(1) =~= seq!['/'] + rest);
    assert(home + s.skip(1) =~= home + seq!['/'] + rest);
    assert(s != "~"@) by {
        assert(s.len() > 1 && "~"@.len() == 1);
    }
    if "~/"@.is_prefix_of(path) {
        assert(path.subrange(0, 2)[0] == '~' && path.subrange(0, 2)[1] == '/');
    }
}

/// An interval is a number of seconds, or of seconds, minutes, hours or days with the unit
/// behind it; zero is none, and neither is what the field cannot hold, what has another
/// unit, or what is no number.
pub proof fn intervals_are_counted_in_their_units(digits: Seq<char>, c: char)
    requires
        text::is_numeral(digits),
    ensures
        ({
            let n = text::digits_value(digits);
            &&& 0 < n <= i64::MAX ==> interval_secs(digits) == Some(n as i64)
            &&& 0 < n <= i64::MAX ==> interval_secs(digits.push('s')) == Some(n as i64)
            &&& 0 < n && n * 60 <= i64::MAX ==> interval_secs(digits.push('m')) == Some(
                (n * 60) as i64,
            )
            &&& 0 < n && n * 3600 <= i64::MAX ==> interval_secs(digits.push('h')) == Some(
                (n * 3600) as i64,
            )
            &&& 0 < n && n * 86400 <= i64::MAX ==> interval_secs(digits.push('d')) == Some(
                (n * 86400) as i64,
            )
            &&& n == 0 || n > i64::MAX ==> interval_secs(digits) is None
            &&& n == 0 ==> interval_secs(digits.push(c)) is None || text::is_digit(c)
            &&& !text::is_digit(c) && c != 's' && c != 'm' && c != 'h' && c != 'd'
                ==> interval_secs(digits.push(c)) is None
        }),
        interval_secs(Seq::<char>::empty()) is None,
{
    assert forall|d: char| !text::is_digit(d) implies !text::is_numeral(
        #[trigger] digits.push(d),
    ) by {
        assert(digits.push(d)[digits.len() as int] == d);
    }
    assert forall|d: char| #[trigger] digits.push(d).drop_last() =~= digits by {}
    assert(!text::is_digit('s') && !text::is_digit('m') && !text::is_digit('h')
        && !text::is_digit('d'));
    assert(digits.push('s').last() == 's' && digits.push('m').last() == 'm');
    assert(digits.push('h').last() == 'h' && digits.push('d').last() == 'd');
    assert(digits.push(c).last() == c);
}

/// Every status, tag, mode and url type has these words and no others: each word names one,
/// each is written as its word, and any other text names none.
pub proof fn each_word_names_its_own(s: Seq<char>)
    ensures
        TaskStatus::named(s) == Some(TaskStatus::Backlog) <==> s == "backlog"@,
        TaskStatus::named(s) == Some(TaskStatus::Running) <==> s == "running"@,
        TaskStatus::named(s) == Some(TaskStatus::Done) <==> s == "done"@,
        TaskStatus::named(s) == Some(TaskStatus::Archived) <==> s == "archived"@,
        TaskTag::named(s) == Some(TaskTag::Bug) <==> s == "bug"@,
        TaskTag::named(s) == Some(TaskTag::Fix) <==> s == "fix"@,
        TaskTag::named(s) == Some(TaskTag::Chore) <==> s == "chore"@,
        TaskTag::named(s) == Some(TaskTag::PrReview) <==> s == "pr-review"@,
        TaskTag::named(s) == Some(TaskTag::Dependabot) <==> s == "dependabot"@,
        WrapUpMode::named(s) == Some(WrapUpMode::Rebase) <==> s == "rebase"@,
        WrapUpMode::named(s) == Some(WrapUpMode::Pr) <==> s == "pr"@,
        WrapUpMode::named(s) == Some(WrapUpMode::Done) <==> s == "done"@,
        UrlType::named(s) == Some(UrlType::Pr) <==> s == "pr"@,
        UrlType::named(s) == Some(UrlType::SecurityAlert) <==> s == "security_alert"@,
        UrlType::named(s) == Some(UrlType::Issue) <==> s == "issue"@,
        UrlType::named(s) == Some(UrlType::Other) <==> s == "other"@,
        TaskStatus::named(s) matches Some(status) ==> status.word() == s,
        TaskTag::named(s) matches Some(tag) ==> tag.word() == s,
        WrapUpMode::named(s) matches Some(mode) ==> mode.word() == s,
        UrlType::named(s) matches Some(url_type) ==> url_type.word() == s,
{
    words_are_read_back();
    assert(TaskStatus::named(TaskStatus::Backlog.word()) == Some(TaskStatus::Backlog));
    assert(TaskStatus::named(TaskStatus::Running.word()) == Some(TaskStatus::Running));
    assert(TaskStatus::named(TaskStatus::Done.word()) == Some(TaskStatus::Done));
    assert(TaskStatus::named(TaskStatus::Archived.word()) == Some(TaskStatus::Archived));
    assert(TaskTag::named(TaskTag::Bug.word()) == Some(TaskTag::Bug));
    assert(TaskTag::named(TaskTag::Fix.word()) == Some(TaskTag::Fix));
    assert(TaskTag::named(TaskTag::Chore.word()) == Some(TaskTag::Chore));
    assert(TaskTag::named(TaskTag::PrReview.word()) == Some(TaskTag::PrReview));
    assert(TaskTag::named(TaskTag::Dependabot.word()) == Some(TaskTag::Dependabot));
    assert(WrapUpMode::named(WrapUpMode::Rebase.word()) == Some(WrapUpMode::Rebase));
    assert(WrapUpMode::named(WrapUpMode::Pr.word()) == Some(WrapUpMode::Pr));
    assert(WrapUpMode::named(WrapUpMode::Done.word()) == Some(WrapUpMode::Done));
    assert(UrlType::named(UrlType::Pr.word()) == Some(UrlType::Pr));
    assert(UrlType::named(UrlType::SecurityAlert.word()) == Some(UrlType::SecurityAlert));
    assert(UrlType::named(UrlType::Issue.word()) == Some(UrlType::Issue));
    assert(UrlType::named(UrlType::Other.word()) == Some(UrlType::Other));
}

/// An interval that the field cannot hold is none, in whichever unit it is given.
pub proof fn an_interval_past_the_field_is_none(digits: Seq<char>)
    requires
        text::is_numeral(digits),
    ensures
        ({
            let n = text::digits_value(digits);
            &&& n > i64::MAX ==> interval_secs(digits.push('s')) is None
            &&& n * 60 > i64::MAX ==> interval_secs(digits.push('m')) is None
            &&& n * 3600 > i64::MAX ==> interval_secs(digits.push('h')) is None
            &&& n * 86400 > i64::MAX ==> interval_secs(digits.push('d')) is None
        }),
{
    assert forall|d: char| !text::is_digit(d) implies !text::is_numeral(
        #[trigger] digits.push(d),
    ) by {
        assert(digits.push(d)[digits.len() as int] == d);
    }
    assert forall|d: char| #[trigger] digits.push(d).drop_last() =~= digits by {}
    assert(digits.push('s').last() == 's' && digits.push('m').last() == 'm');
    assert(digits.push('h').last() == 'h' && digits.push('d').last() == 'd');
    assert(!text::is_digit('s') && !text::is_digit('m') && !text::is_digit('h')
        && !text::is_digit('d'));
}

/// An optional text is what it holds; nothing stands for none, or an empty text.
pub proof fn an_optional_text_is_what_it_holds(s: Option<String>)
    ensures
        s matches Some(held) ==> opt_text(s) == Some(held@) && text_or_empty(s) == held@,
        s is None ==> opt_text(s) is None && text_or_empty(s).len() == 0,
{
}

} // verus!

//! The user's editor: which one to start, and what the pop-out task and epic
//! editors show and read back.

use vstd::prelude::*;

use crate::models;
use crate::models::{
    Epic, FieldUpdate, Task, TaskStatus, TaskTag, TaskUrl, UrlType, UrlUpdate, WrapUpMode,
};
use crate::sections;
use crate::sections::Sections;
use crate::text;

verus! {

/// The editor of last resort.
pub const EDITOR_FALLBACK: &'static str = "vi";

/// The words of a setting; none where it is unset.
pub open spec fn setting_words(setting: Option<&str>) -> Seq<Seq<char>> {
    match setting {
        Some(value) => text::words(value@),
        None => Seq::empty(),
    }
}

/// The editor's argument vector: the words of `$VISUAL`, else of `$EDITOR`, else
/// the editor of last resort. A setting without a word counts as unset.
pub open spec fn editor_argv(visual: Option<&str>, editor: Option<&str>) -> Seq<Seq<char>> {
    if setting_words(visual).len() > 0 {
        setting_words(visual)
    } else if setting_words(editor).len() > 0 {
        setting_words(editor)
    } else {
        seq![EDITOR_FALLBACK@]
    }
}

/// The argument vector for the user's editor, from the values of `$VISUAL` and
/// `$EDITOR`. Never empty.
pub fn resolve_editor(visual: Option<&str>, editor: Option<&str>) -> (r: Vec<String>)
    ensures
        text::texts(r@) == editor_argv(visual, editor),
        r@.len() > 0,
{
    if let Some(value) = visual {
        let argv: Vec<String> = text::words_of(value);
        assert(text::texts(argv@).len() == argv@.len());
        if argv.len() > 0 {
            return argv;
        }
    }
    if let Some(value) = editor {
        let argv: Vec<String> = text::words_of(value);
        assert(text::texts(argv@).len() == argv@.len());
        if argv.len() > 0 {
            return argv;
        }
    }
    let mut argv: Vec<String> = Vec::new();
    argv.push(EDITOR_FALLBACK.to_owned());
    assert(text::texts(argv@) =~= seq![EDITOR_FALLBACK@]);
    argv
}

/// A section whose content could not be read.
#[derive(Clone, Debug, PartialEq, Eq)]
pub struct EditorParseError {
    /// The section's name.
    pub field: &'static str,
    /// What the user typed there.
    pub raw: String,
    /// What is wrong with it.
    pub message: String,
}

/// Section, content and explanation.
impl View for EditorParseError {
    type V = (Seq<char>, Seq<char>, Seq<char>);

    open spec fn view(&self) -> (Seq<char>, Seq<char>, Seq<char>) {
        (self.field@, self.raw@, self.message@)
    }
}

impl EditorParseError {
    /// The error as a status line shows it.
    pub fn to_message(&self) -> (r: String)
        ensures
            r@ == self.field@ + ": "@ + self.message@,
    {
        self.field.to_owned().concat(": ").concat(self.message.as_str())
    }
}

/// The complaints that a list of errors makes.
pub open spec fn complaints(errors: Seq<EditorParseError>) -> Seq<(Seq<char>, Seq<char>, Seq<char>)> {
    errors.map_values(|e: EditorParseError| e@)
}

/// What a task's sheet says.
#[derive(Debug)]
pub struct EditorFields {
    pub title: String,
    pub description: String,
    pub repo_path: String,
    pub status: Option<TaskStatus>,
    pub plan: String,
    pub tag: Option<TaskTag>,
    pub base_branch: String,
    pub wrap_up_mode: Option<WrapUpMode>,
    pub url: String,
    pub url_type: Option<UrlType>,
    pub phoenix: Option<bool>,
    pub errors: Vec<EditorParseError>,
}

impl Default for EditorFields {
    fn default() -> (r: EditorFields)
        ensures
            r.title@ == Seq::<char>::empty(),
            r.description@ == Seq::<char>::empty(),
            r.repo_path@ == Seq::<char>::empty(),
            r.status is None,
            r.plan@ == Seq::<char>::empty(),
            r.tag is None,
            r.base_branch@ == Seq::<char>::empty(),
            r.wrap_up_mode is None,
            r.url@ == Seq::<char>::empty(),
            r.url_type is None,
            r.phoenix is None,
            r.errors@.len() == 0,
    {
        EditorFields {
            title: String::new(),
            description: String::new(),
            repo_path: String::new(),
            status: None,
            plan: String::new(),
            tag: None,
            base_branch: String::new(),
            wrap_up_mode: None,
            url: String::new(),
            url_type: None,
            phoenix: None,
            errors: Vec::new(),
        }
    }
}

/// What an epic's sheet says.
#[derive(Debug)]
pub struct EpicEditorFields {
    pub title: String,
    pub description: String,
    pub feed_command: String,
    pub feed_interval_secs: Option<i64>,
    pub errors: Vec<EditorParseError>,
}

impl Default for EpicEditorFields {
    fn default() -> (r: EpicEditorFields)
        ensures
            r.title@ == Seq::<char>::empty(),
            r.description@ == Seq::<char>::empty(),
            r.feed_command@ == Seq::<char>::empty(),
            r.feed_interval_secs is None,
            r.errors@.len() == 0,
    {
        EpicEditorFields {
            title: String::new(),
            description: String::new(),
            feed_command: String::new(),
            feed_interval_secs: None,
            errors: Vec::new(),
        }
    }
}

/// A sheet with a description alone.
pub fn format_description_for_editor(existing: &str) -> (r: String)
    ensures
        r@ == sections::sheet(seq![("DESCRIPTION"@, existing@)]),
{
    let mut out: String = String::new();
    sections::add_section(&mut out, "DESCRIPTION", existing);
    proof {
        let entries = seq![("DESCRIPTION"@, existing@)];
        assert(entries.drop_last() =~= Seq::empty());
        assert(sections::sheet(entries.drop_last()) =~= Seq::empty());
        assert(out@ =~= sections::sheet(entries));
    }
    out
}

/// The description that a sheet holds.
pub fn parse_description_editor_output(input: &str) -> (r: String)
    ensures
        r@ == sections::section(input@, "DESCRIPTION"@),
{
    sections::parse_sections(input).content("DESCRIPTION")
}

/// The numeral of an optional number; nothing where there is none.
pub open spec fn opt_decimal(n: Option<i64>) -> Seq<char> {
    match n {
        Some(n) => text::decimal(n as int),
        None => Seq::empty(),
    }
}

/// The sections of an epic's sheet.
pub open spec fn epic_sheet(epic: Epic) -> Seq<(Seq<char>, Seq<char>)> {
    seq![
        ("TITLE"@, epic.title@),
        ("DESCRIPTION"@, epic.description@),
        ("FEED_COMMAND"@, models::text_or_empty(epic.feed_command)),
        ("FEED_INTERVAL_SECS"@, opt_decimal(epic.feed_interval_secs)),
    ]
}

proof fn lemma_sheet_push(
    entries: Seq<(Seq<char>, Seq<char>)>,
    n: int,
    out: Seq<char>,
    name: Seq<char>,
    content: Seq<char>,
)
    requires
        0 <= n < entries.len(),
        entries[n] == (name, content),
        out == sections::sheet(entries.take(n)),
    ensures
        out + sections::block(name, content) == sections::sheet(entries.take(n + 1)),
{
    assert(entries.take(n + 1).drop_last() =~= entries.take(n));
    assert(entries.take(n + 1).last() == entries[n]);
}

/// The optional string's text, or nothing.
fn str_or_empty(s: &Option<String>) -> (r: &str)
    ensures
        r@ == models::text_or_empty(*s),
{
    match s {
        Some(s) => s.as_str(),
        None => {
            proof {
                reveal_strlit("");
                assert(""@ =~= Seq::empty());
            }
            ""
        },
    }
}

/// The sheet that an epic is edited on.
pub fn format_epic_for_editor(epic: &Epic) -> (r: String)
    ensures
        r@ == sections::sheet(epic_sheet(*epic)),
{
    let interval: String = match epic.feed_interval_secs {
        Some(n) => text::decimal_i64(n),
        None => String::new(),
    };
    let command = str_or_empty(&epic.feed_command);
    let ghost entries = epic_sheet(*epic);
    let mut out: String = String::new();
    proof {
        assert(entries.take(0) =~= Seq::empty());
        lemma_sheet_push(entries, 0, out@, "TITLE"@, epic.title@);
    }
    sections::add_section(&mut out, "TITLE", epic.title.as_str());
    proof {
        lemma_sheet_push(entries, 1, out@, "DESCRIPTION"@, epic.description@);
    }
    sections::add_section(&mut out, "DESCRIPTION", epic.description.as_str());
    proof {
        lemma_sheet_push(entries, 2, out@, "FEED_COMMAND"@, command@);
    }
    sections::add_section(&mut out, "FEED_COMMAND", command);
    proof {
        lemma_sheet_push(entries, 3, out@, "FEED_INTERVAL_SECS"@, interval@);
    }
    sections::add_section(&mut out, "FEED_INTERVAL_SECS", interval.as_str());
    assert(entries.take(4) =~= entries);
    out
}

/// The word for a yes or a no.
pub open spec fn flag_word(flag: bool) -> Seq<char> {
    if flag {
        "true"@
    } else {
        "false"@
    }
}

/// The word for an optional tag; nothing where there is none.
pub open spec fn tag_word(tag: Option<TaskTag>) -> Seq<char> {
    match tag {
        Some(tag) => tag.word(),
        None => Seq::empty(),
    }
}

/// The word for an optional wrap-up mode; nothing where there is none.
pub open spec fn mode_word(mode: Option<WrapUpMode>) -> Seq<char> {
    match mode {
        Some(mode) => mode.word(),
        None => Seq::empty(),
    }
}

/// The text of an optional url; nothing where there is none.
pub open spec fn url_text(url: Option<TaskUrl>) -> Seq<char> {
    match url {
        Some(url) => url.url@,
        None => Seq::empty(),
    }
}

/// The word for an optional url's type; nothing where there is none.
pub open spec fn url_type_word(url: Option<TaskUrl>) -> Seq<char> {
    match url {
        Some(url) => url.url_type.word(),
        None => Seq::empty(),
    }
}

/// The sections of a task's sheet.
pub open spec fn task_sheet(task: Task) -> Seq<(Seq<char>, Seq<char>)> {
    seq![
        ("TITLE"@, task.title@),
        ("DESCRIPTION"@, task.description@),
        ("REPO_PATH"@, task.repo_path@),
        ("STATUS"@, task.status.word()),
        ("PLAN"@, models::text_or_empty(task.plan_path)),
        ("TAG"@, tag_word(task.tag)),
        ("BASE_BRANCH"@, task.base_branch@),
        ("WRAP_UP_MODE"@, mode_word(task.wrap_up_mode)),
        ("PHOENIX"@, flag_word(task.phoenix)),
        ("URL"@, url_text(task.url)),
        ("URL_TYPE"@, url_type_word(task.url)),
    ]
}

/// The sheet that a task is edited on.
pub fn format_editor_content(task: &Task) -> (r: String)
    ensures
        r@ == sections::sheet(task_sheet(*task)),
{
    proof {
        reveal_strlit("");
        assert(""@ =~= Seq::empty());
    }
    let plan = str_or_empty(&task.plan_path);
    let tag = match task.tag {
        Some(tag) => tag.as_str(),
        None => "",
    };
    let mode = match task.wrap_up_mode {
        Some(mode) => mode.as_str(),
        None => "",
    };
    let url = match &task.url {
        Some(url) => url.url.as_str(),
        None => "",
    };
    let url_type = match &task.url {
        Some(url) => url.url_type.as_str(),
        None => "",
    };
    let phoenix = if task.phoenix {
        "true"
    } else {
        "false"
    };
    let ghost entries = task_sheet(*task);
    let mut out: String = String::new();
    proof {
        assert(entries.take(0) =~= Seq::empty());
        lemma_sheet_push(entries, 0, out@, "TITLE"@, task.title@);
    }
    sections::add_section(&mut out, "TITLE", task.title.as_str());
    proof {
        lemma_sheet_push(entries, 1, out@, "DESCRIPTION"@, task.description@);
    }
    sections::add_section(&mut out, "DESCRIPTION", task.description.as_str());
    proof {
        lemma_sheet_push(entries, 2, out@, "REPO_PATH"@, task.repo_path@);
    }
    sections::add_section(&mut out, "REPO_PATH", task.repo_path.as_str());
    proof {
        lemma_sheet_push(entries, 3, out@, "STATUS"@, task.status.word());
    }
    sections::add_section(&mut out, "STATUS", task.status.as_str());
    proof {
        lemma_sheet_push(entries, 4, out@, "PLAN"@, plan@);
    }
    sections::add_section(&mut out, "PLAN", plan);
    proof {
        lemma_sheet_push(entries, 5, out@, "TAG"@, tag@);
    }
    sections::add_section(&mut out, "TAG", tag);
    proof {
        lemma_sheet_push(entries, 6, out@, "BASE_BRANCH"@, task.base_branch@);
    }
    sections::add_section(&mut out, "BASE_BRANCH", task.base_branch.as_str());
    proof {
        lemma_sheet_push(entries, 7, out@, "WRAP_UP_MODE"@, mode@);
    }
    sections::add_section(&mut out, "WRAP_UP_MODE", mode);
    proof {
        lemma_sheet_push(entries, 8, out@, "PHOENIX"@, phoenix@);
    }
    sections::add_section(&mut out, "PHOENIX", phoenix);
    proof {
        lemma_sheet_push(entries, 9, out@, "URL"@, url@);
    }
    sections::add_section(&mut out, "URL", url);
    proof {
        lemma_sheet_push(entries, 10, out@, "URL_TYPE"@, url_type@);
    }
    sections::add_section(&mut out, "URL_TYPE", url_type);
    assert(entries.take(11) =~= entries);
    out
}

/// A text as `{:?}` shows it: in double quotes, with what cannot be shown
/// escaped.
pub uninterp spec fn debug_quoted(s: Seq<char>) -> Seq<char>;

/// `format!("{:?}")` of std on a `str`. Its result is a function of the text
/// alone; how each character is escaped is not said.
#[verifier::external_body]
fn quote(s: &str) -> (r: String)
    ensures
        r@ == debug_quoted(s@),
{
    format!("{s:?}")
}

/// The message for a content that could not be read, from that content in quotes
/// and what the section expects.
pub fn failure_message(before: &str, quoted: &str, after: &str) -> (r: String)
    ensures
        r@ == before@ + quoted@ + after@,
{
    before.to_owned().concat(quoted).concat(after)
}

/// The complaint about a section, if there is one: its content is not empty, and
/// it was not understood.
pub open spec fn complaint(
    field: Seq<char>,
    raw: Seq<char>,
    understood: bool,
    before: Seq<char>,
    after: Seq<char>,
) -> Seq<(Seq<char>, Seq<char>, Seq<char>)> {
    if raw.len() > 0 && !understood {
        seq![(field, raw, before + debug_quoted(raw) + after)]
    } else {
        Seq::empty()
    }
}

/// Take what a section was understood as. An empty section is as good as absent;
/// any other that was not understood is an error, noted at the end of `errors`.
fn parse_section<T>(
    raw: String,
    field: &'static str,
    understood: Option<T>,
    before: &str,
    after: &str,
    errors: &mut Vec<EditorParseError>,
) -> (r: Option<T>)
    ensures
        r == if raw@.len() == 0 {
            None
        } else {
            understood
        },
        complaints(final(errors)@) == complaints(old(errors)@) + complaint(
            field@,
            raw@,
            understood is Some,
            before@,
            after@,
        ),
{
    if raw.as_str().is_empty() {
        assert(complaints(errors@) =~= complaints(errors@) + Seq::empty());
        return None;
    }
    match understood {
        Some(value) => {
            assert(complaints(errors@) =~= complaints(errors@) + Seq::empty());
            Some(value)
        },
        None => {
            let quoted: String = quote(raw.as_str());
            let message: String = failure_message(before, quoted.as_str(), after);
            errors.push(EditorParseError { field, raw, message });
            assert(complaints(errors@) =~= complaints(old(errors)@) + complaint(
                field@,
                raw@,
                false,
                before@,
                after@,
            ));
            None
        },
    }
}

/// The yes or no that a text says, in any of the usual words and in any case.
pub open spec fn yes_or_no(s: Seq<char>) -> Option<bool> {
    let t = text::lowered(text::trim(s));
    if t == "true"@ || t == "yes"@ || t == "on"@ || t == "1"@ {
        Some(true)
    } else if t == "false"@ || t == "no"@ || t == "off"@ || t == "0"@ {
        Some(false)
    } else {
        None
    }
}

/// The yes or no that a text says.
pub fn parse_editor_bool(raw: &str) -> (r: Option<bool>)
    ensures
        r == yes_or_no(raw@),
{
    let t: String = text::trimmed(raw);
    let t = t.as_str();
    if text::same_lowered(t, "true") || text::same_lowered(t, "yes") || text::same_lowered(t, "on")
        || text::same_lowered(t, "1") {
        Some(true)
    } else if text::same_lowered(t, "false") || text::same_lowered(t, "no") || text::same_lowered(
        t,
        "off",
    ) || text::same_lowered(t, "0") {
        Some(false)
    } else {
        None
    }
}

/// What a section is read as: nothing where it is empty.
pub open spec fn unless_empty<T>(raw: Seq<char>, value: Option<T>) -> Option<T> {
    if raw.len() == 0 {
        None
    } else {
        value
    }
}

/// The complaints about a task's sheet, in the order in which its sections are
/// read.
pub open spec fn task_complaints(input: Seq<char>) -> Seq<(Seq<char>, Seq<char>, Seq<char>)> {
    let status = sections::section(input, "STATUS"@);
    let tag = sections::section(input, "TAG"@);
    let mode = sections::section(input, "WRAP_UP_MODE"@);
    let url_type = sections::section(input, "URL_TYPE"@);
    let phoenix = sections::section(input, "PHOENIX"@);
    complaint("STATUS"@, status, TaskStatus::named(status) is Some, "unknown status: "@, ""@)
        + complaint("TAG"@, tag, TaskTag::named(tag) is Some, "unknown tag: "@, ""@) + complaint(
        "WRAP_UP_MODE"@,
        mode,
        WrapUpMode::named(mode) is Some,
        "unknown wrap-up mode: "@,
        " (valid: rebase, pr, done)"@,
    ) + complaint(
        "URL_TYPE"@,
        url_type,
        UrlType::named(url_type) is Some,
        "unknown url type: "@,
        " (valid: pr, security_alert, issue, other)"@,
    ) + complaint(
        "PHOENIX"@,
        phoenix,
        yes_or_no(phoenix) is Some,
        "not a yes/no value: "@,
        " (valid: true, false, yes, no, on, off, 1, 0)"@,
    )
}

/// Read a task's sheet.
pub fn parse_editor_content(input: &str) -> (r: EditorFields)
    ensures
        r.title@ == sections::section(input@, "TITLE"@),
        r.description@ == sections::section(input@, "DESCRIPTION"@),
        r.repo_path@ == sections::section(input@, "REPO_PATH"@),
        r.status == unless_empty(
            sections::section(input@, "STATUS"@),
            TaskStatus::named(sections::section(input@, "STATUS"@)),
        ),
        r.plan@ == sections::section(input@, "PLAN"@),
        r.tag == unless_empty(
            sections::section(input@, "TAG"@),
            TaskTag::named(sections::section(input@, "TAG"@)),
        ),
        r.base_branch@ == sections::section(input@, "BASE_BRANCH"@),
        r.wrap_up_mode == unless_empty(
            sections::section(input@, "WRAP_UP_MODE"@),
            WrapUpMode::named(sections::section(input@, "WRAP_UP_MODE"@)),
        ),
        r.url@ == sections::section(input@, "URL"@),
        r.url_type == unless_empty(
            sections::section(input@, "URL_TYPE"@),
            UrlType::named(sections::section(input@, "URL_TYPE"@)),
        ),
        r.phoenix == unless_empty(
            sections::section(input@, "PHOENIX"@),
            yes_or_no(sections::section(input@, "PHOENIX"@)),
        ),
        complaints(r.errors@) == task_complaints(input@),
{
    let s: Sections = sections::parse_sections(input);
    let mut errors: Vec<EditorParseError> = Vec::new();
    assert(complaints(errors@) =~= Seq::empty());

    let raw: String = s.content("STATUS");
    let understood: Option<TaskStatus> = TaskStatus::parse(raw.as_str());
    let status: Option<TaskStatus> = parse_section(
        raw,
        "STATUS",
        understood,
        "unknown status: ",
        "",
        &mut errors,
    );

    let raw: String = s.content("TAG");
    let understood: Option<TaskTag> = TaskTag::parse(raw.as_str());
    let tag: Option<TaskTag> = parse_section(
        raw,
        "TAG",
        understood,
        "unknown tag: ",
        "",
        &mut errors,
    );

    let raw: String = s.content("WRAP_UP_MODE");
    let understood: Option<WrapUpMode> = WrapUpMode::parse(raw.as_str());
    let wrap_up_mode: Option<WrapUpMode> = parse_section(
        raw,
        "WRAP_UP_MODE",
        understood,
        "unknown wrap-up mode: ",
        " (valid: rebase, pr, done)",
        &mut errors,
    );

    let raw: String = s.content("URL_TYPE");
    let understood: Option<UrlType> = UrlType::parse(raw.as_str());
    let url_type: Option<UrlType> = parse_section(
        raw,
        "URL_TYPE",
        understood,
        "unknown url type: ",
        " (valid: pr, security_alert, issue, other)",
        &mut errors,
    );

    let raw: String = s.content("PHOENIX");
    let understood: Option<bool> = parse_editor_bool(raw.as_str());
    let phoenix: Option<bool> = parse_section(
        raw,
        "PHOENIX",
        understood,
        "not a yes/no value: ",
        " (valid: true, false, yes, no, on, off, 1, 0)",
        &mut errors,
    );

    assert(complaints(errors@) =~= task_complaints(input@));
    EditorFields {
        title: s.content("TITLE"),
        description: s.content("DESCRIPTION"),
        repo_path: s.content("REPO_PATH"),
        status,
        plan: s.content("PLAN"),
        tag,
        base_branch: s.content("BASE_BRANCH"),
        wrap_up_mode,
        url: s.content("URL"),
        url_type,
        phoenix,
        errors,
    }
}

/// The complaints about an epic's sheet.
pub open spec fn epic_complaints(input: Seq<char>) -> Seq<(Seq<char>, Seq<char>, Seq<char>)> {
    let interval = sections::section(input, "FEED_INTERVAL_SECS"@);
    complaint(
        "FEED_INTERVAL_SECS"@,
        interval,
        models::interval_secs(interval) is Some,
        "not a valid interval: "@,
        " (expected e.g. "@ + models::INTERVAL_EXAMPLES@ + ")"@,
    )
}

/// Read an epic's sheet.
pub fn parse_epic_editor_output(input: &str) -> (r: EpicEditorFields)
    ensures
        r.title@ == sections::section(input@, "TITLE"@),
        r.description@ == sections::section(input@, "DESCRIPTION"@),
        r.feed_command@ == sections::section(input@, "FEED_COMMAND"@),
        r.feed_interval_secs == models::interval_secs(
            sections::section(input@, "FEED_INTERVAL_SECS"@),
        ),
        complaints(r.errors@) == epic_complaints(input@),
{
    let s: Sections = sections::parse_sections(input);
    let mut errors: Vec<EditorParseError> = Vec::new();
    assert(complaints(errors@) =~= Seq::empty());
    let raw: String = s.content("FEED_INTERVAL_SECS");
    let understood: Option<i64> = models::parse_interval_secs(raw.as_str());
    let expected: String = " (expected e.g. ".to_owned().concat(models::INTERVAL_EXAMPLES).concat(
        ")",
    );
    let feed_interval_secs: Option<i64> = parse_section(
        raw,
        "FEED_INTERVAL_SECS",
        understood,
        "not a valid interval: ",
        expected.as_str(),
        &mut errors,
    );
    assert(complaints(errors@) =~= epic_complaints(input@));
    EpicEditorFields {
        title: s.content("TITLE"),
        description: s.content("DESCRIPTION"),
        feed_command: s.content("FEED_COMMAND"),
        feed_interval_secs,
        errors,
    }
}

/// What an edit makes of a task.
///
/// `title`, `description`, `repo_path`, `status` and `phoenix` are final values.
/// `base_branch` is `None` where the task keeps its own. `plan_path`, `tag` and
/// `wrap_up_mode` say what the field holds from now on. `url` is `None` where the
/// edit leaves the url as it was. The two `resolved` fields are the values after
/// the edit in any case.
#[derive(Clone, Debug, PartialEq, Eq)]
pub struct TaskEditApplied {
    pub title: String,
    pub description: String,
    pub repo_path: String,
    pub status: TaskStatus,
    pub plan_path: FieldUpdate,
    pub resolved_plan_path: Option<String>,
    pub tag: Option<TaskTag>,
    pub base_branch: Option<String>,
    pub wrap_up_mode: Option<WrapUpMode>,
    pub url: Option<UrlUpdate>,
    pub resolved_url: Option<TaskUrl>,
    pub phoenix: bool,
}

/// The edited text, or the prior one where the edit is empty.
pub open spec fn kept_if_empty(edited: Seq<char>, prior: Seq<char>) -> Seq<char> {
    if edited.len() == 0 {
        prior
    } else {
        edited
    }
}

/// A text that the field is set to; `None` where there is none.
pub open spec fn unless_blank(edited: Seq<char>) -> Option<Seq<char>> {
    if edited.len() == 0 {
        None
    } else {
        Some(edited)
    }
}

/// Text and type of an optional url.
pub open spec fn opt_url(url: Option<TaskUrl>) -> Option<(Seq<char>, UrlType)> {
    match url {
        Some(url) => Some(url@),
        None => None,
    }
}

/// The url that an edit asks for. None where the text is empty. Else of the type
/// that the edit names; where it names none, of the type that the task had for
/// the same text, or of the one that the text shows.
pub open spec fn edited_url(
    raw: Seq<char>,
    explicit: Option<UrlType>,
    prior: Option<(Seq<char>, UrlType)>,
) -> Option<(Seq<char>, UrlType)> {
    if raw.len() == 0 {
        None
    } else {
        match (explicit, prior) {
            (Some(url_type), _) => Some((raw, url_type)),
            (None, Some((url, url_type))) => if url == raw {
                Some((raw, url_type))
            } else {
                Some((raw, models::shown_type(raw)))
            },
            (None, None) => Some((raw, models::shown_type(raw))),
        }
    }
}

/// The change from one url to another; none where they are the same.
pub open spec fn url_change(
    prior: Option<(Seq<char>, UrlType)>,
    desired: Option<(Seq<char>, UrlType)>,
) -> Option<Option<(Seq<char>, UrlType)>> {
    if desired == prior {
        None
    } else {
        Some(desired)
    }
}

/// The url that a change sets; `Some(None)` where it clears the url.
pub open spec fn opt_url_update(update: Option<UrlUpdate>) -> Option<Option<(Seq<char>, UrlType)>> {
    match update {
        Some(UrlUpdate::SetTo(url)) => Some(Some(url@)),
        Some(UrlUpdate::Clear) => Some(None),
        None => None,
    }
}

/// The url that an edit asks for.
fn resolve_edited_url(raw_url: &str, explicit_type: Option<UrlType>, prior: Option<&TaskUrl>) -> (r:
    Option<TaskUrl>)
    ensures
        opt_url(r) == edited_url(
            raw_url@,
            explicit_type,
            match prior {
                Some(p) => Some(p@),
                None => None,
            },
        ),
{
    if raw_url.is_empty() {
        return None;
    }
    let url_type: UrlType = match explicit_type {
        Some(url_type) => url_type,
        None => match prior {
            Some(p) => if text::same(p.url.as_str(), raw_url) {
                p.url_type
            } else {
                UrlType::infer(raw_url)
            },
            None => UrlType::infer(raw_url),
        },
    };
    Some(TaskUrl::new(raw_url.to_owned(), url_type))
}

/// The edited text, or the prior one where the edit is empty.
fn keep_prior_if_empty(edited: String, prior: &str) -> (r: String)
    ensures
        r@ == kept_if_empty(edited@, prior@),
{
    if edited.as_str().is_empty() {
        prior.to_owned()
    } else {
        edited
    }
}

/// Are the two urls the same, in text and type?
fn same_url(a: &Option<TaskUrl>, b: &Option<TaskUrl>) -> (r: bool)
    ensures
        r == (opt_url(*a) == opt_url(*b)),
{
    match (a, b) {
        (Some(a), Some(b)) => a.url_type == b.url_type && text::same(a.url.as_str(), b.url.as_str()),
        (None, None) => true,
        _ => false,
    }
}

fn copied_url(url: &TaskUrl) -> (r: TaskUrl)
    ensures
        r@ == url@,
{
    TaskUrl::new(url.url.clone(), url.url_type)
}

/// What a task becomes under an edit.
pub fn apply_task_editor_fields(task: &Task, fields: EditorFields) -> (r: TaskEditApplied)
    ensures
        r.title@ == kept_if_empty(fields.title@, task.title@),
        r.description@ == kept_if_empty(fields.description@, task.description@),
        r.repo_path@ == kept_if_empty(fields.repo_path@, task.repo_path@),
        r.status == match fields.status {
            Some(status) => status,
            None => task.status,
        },
        r.plan_path.value() == unless_blank(fields.plan@),
        models::opt_text(r.resolved_plan_path) == unless_blank(fields.plan@),
        r.tag == fields.tag,
        models::opt_text(r.base_branch) == unless_blank(fields.base_branch@),
        r.wrap_up_mode == fields.wrap_up_mode,
        opt_url(r.resolved_url) == edited_url(fields.url@, fields.url_type, opt_url(task.url)),
        opt_url_update(r.url) == url_change(
            opt_url(task.url),
            edited_url(fields.url@, fields.url_type, opt_url(task.url)),
        ),
        r.phoenix == (fields.phoenix == Some(true)),
{
    let title: String = keep_prior_if_empty(fields.title, task.title.as_str());
    let description: String = keep_prior_if_empty(fields.description, task.description.as_str());
    let repo_path: String = keep_prior_if_empty(fields.repo_path, task.repo_path.as_str());
    let status: TaskStatus = match fields.status {
        Some(status) => status,
        None => task.status,
    };
    let plan_path: FieldUpdate = FieldUpdate::from_string(fields.plan);
    let base_branch: Option<String> = if fields.base_branch.as_str().is_empty() {
        None
    } else {
        Some(fields.base_branch)
    };
    let prior: Option<&TaskUrl> = match &task.url {
        Some(url) => Some(url),
        None => None,
    };
    let desired_url: Option<TaskUrl> = resolve_edited_url(
        fields.url.as_str(),
        fields.url_type,
        prior,
    );
    let url: Option<UrlUpdate> = if same_url(&desired_url, &task.url) {
        None
    } else {
        match &desired_url {
            Some(u) => Some(UrlUpdate::SetTo(copied_url(u))),
            None => Some(UrlUpdate::Clear),
        }
    };
    let phoenix: bool = match fields.phoenix {
        Some(flag) => flag,
        None => false,
    };
    let resolved_plan_path: Option<String> = match plan_path.as_option() {
        Some(plan) => Some(plan.to_owned()),
        None => None,
    };
    TaskEditApplied {
        title,
        description,
        repo_path,
        status,
        plan_path,
        resolved_plan_path,
        tag: fields.tag,
        base_branch,
        wrap_up_mode: fields.wrap_up_mode,
        url,
        resolved_url: desired_url,
        phoenix,
    }
}

/// What an edit makes of an epic.
#[derive(Clone, Debug, PartialEq, Eq)]
pub struct EpicEditApplied {
    pub title: String,
    pub description: String,
    pub feed_command: FieldUpdate,
    pub feed_interval_secs: Option<i64>,
}

/// What an epic becomes under an edit.
pub fn apply_epic_editor_fields(epic: &Epic, fields: EpicEditorFields) -> (r: EpicEditApplied)
    ensures
        r.title@ == kept_if_empty(fields.title@, epic.title@),
        r.description@ == kept_if_empty(fields.description@, epic.description@),
        r.feed_command.value() == unless_blank(fields.feed_command@),
        r.feed_interval_secs == fields.feed_interval_secs,
{
    EpicEditApplied {
        title: keep_prior_if_empty(fields.title, epic.title.as_str()),
        description: keep_prior_if_empty(fields.description, epic.description.as_str()),
        feed_command: FieldUpdate::from_string(fields.feed_command),
        feed_interval_secs: fields.feed_interval_secs,
    }
}

/// A text that a sheet carries as it is.
pub open spec fn carried(s: Seq<char>) -> bool {
    sections::plain_content(s)
}

/// A task without a line in its texts that reads as a header.
pub open spec fn headerless_task(task: Task) -> bool {
    &&& sections::headerless(task.title@)
    &&& sections::headerless(task.description@)
    &&& sections::headerless(task.repo_path@)
    &&& sections::headerless(models::text_or_empty(task.plan_path))
    &&& sections::headerless(task.base_branch@)
    &&& sections::headerless(url_text(task.url))
}

/// A task whose texts a sheet carries as they are, and whose url and plan, if it
/// has them, are not empty.
pub open spec fn carried_task(task: Task) -> bool {
    &&& carried(task.title@)
    &&& carried(task.description@)
    &&& carried(task.repo_path@)
    &&& carried(models::text_or_empty(task.plan_path))
    &&& carried(task.base_branch@)
    &&& carried(url_text(task.url))
    &&& task.url is Some ==> task.url->0.url@.len() > 0
    &&& task.plan_path is Some ==> task.plan_path->0@.len() > 0
}

proof fn lemma_section_names()
    ensures
        sections::plain_name("TITLE"@),
        sections::plain_name("DESCRIPTION"@),
        sections::plain_name("REPO_PATH"@),
        sections::plain_name("STATUS"@),
        sections::plain_name("PLAN"@),
        sections::plain_name("TAG"@),
        sections::plain_name("BASE_BRANCH"@),
        sections::plain_name("WRAP_UP_MODE"@),
        sections::plain_name("PHOENIX"@),
        sections::plain_name("URL"@),
        sections::plain_name("URL_TYPE"@),
        sections::plain_name("FEED_COMMAND"@),
        sections::plain_name("FEED_INTERVAL_SECS"@),
        "TITLE"@.len() == 5,
        "DESCRIPTION"@.len() == 11,
        "DESCRIPTION"@[0] == 'D',
        "REPO_PATH"@.len() == 9,
        "STATUS"@.len() == 6,
        "PLAN"@.len() == 4,
        "TAG"@.len() == 3,
        "TAG"@[0] == 'T',
        "BASE_BRANCH"@.len() == 11,
        "BASE_BRANCH"@[0] == 'B',
        "WRAP_UP_MODE"@.len() == 12,
        "PHOENIX"@.len() == 7,
        "URL"@.len() == 3,
        "URL"@[0] == 'U',
        "URL_TYPE"@.len() == 8,
        "FEED_COMMAND"@.len() == 12,
        "FEED_INTERVAL_SECS"@.len() == 18,
{
    reveal_strlit("TITLE");
    reveal_strlit("DESCRIPTION");
    reveal_strlit("REPO_PATH");
    reveal_strlit("STATUS");
    reveal_strlit("PLAN");
    reveal_strlit("TAG");
    reveal_strlit("BASE_BRANCH");
    reveal_strlit("WRAP_UP_MODE");
    reveal_strlit("PHOENIX");
    reveal_strlit("URL");
    reveal_strlit("URL_TYPE");
    reveal_strlit("FEED_COMMAND");
    reveal_strlit("FEED_INTERVAL_SECS");
}

proof fn lemma_words_are_plain()
    ensures
        forall|a: TaskStatus| sections::plain_content(#[trigger] a.word()),
        forall|a: TaskTag| sections::plain_content(#[trigger] a.word()),
        forall|a: WrapUpMode| sections::plain_content(#[trigger] a.word()),
        forall|a: UrlType| sections::plain_content(#[trigger] a.word()),
        forall|a: TaskStatus| (#[trigger] a.word()).len() > 0,
        forall|a: TaskTag| (#[trigger] a.word()).len() > 0,
        forall|a: WrapUpMode| (#[trigger] a.word()).len() > 0,
        forall|a: UrlType| (#[trigger] a.word()).len() > 0,
        sections::plain_content("true"@),
        sections::plain_content("false"@),
        sections::plain_content(Seq::<char>::empty()),
        "true"@.len() == 4,
        "false"@.len() == 5,
{
    reveal_strlit("backlog");
    reveal_strlit("running");
    reveal_strlit("done");
    reveal_strlit("archived");
    reveal_strlit("bug");
    reveal_strlit("fix");
    reveal_strlit("chore");
    reveal_strlit("pr-review");
    reveal_strlit("dependabot");
    reveal_strlit("rebase");
    reveal_strlit("pr");
    reveal_strlit("security_alert");
    reveal_strlit("issue");
    reveal_strlit("other");
    reveal_strlit("true");
    reveal_strlit("false");
    assert forall|a: TaskStatus| sections::plain_content(#[trigger] a.word()) by {
        sections::lemma_word_is_plain(a.word());
    }
    assert forall|a: TaskTag| sections::plain_content(#[trigger] a.word()) by {
        sections::lemma_word_is_plain(a.word());
    }
    assert forall|a: WrapUpMode| sections::plain_content(#[trigger] a.word()) by {
        sections::lemma_word_is_plain(a.word());
    }
    assert forall|a: UrlType| sections::plain_content(#[trigger] a.word()) by {
        sections::lemma_word_is_plain(a.word());
    }
    sections::lemma_word_is_plain("true"@);
    sections::lemma_word_is_plain("false"@);
    sections::lemma_word_is_plain(Seq::<char>::empty());
}

/// Every section of a task's sheet is read back as what the task holds, a text
/// without the white space round it.
pub proof fn task_sheet_is_read_back(task: Task)
    requires
        headerless_task(task),
    ensures
        ({
            let input = sections::sheet(task_sheet(task));
            let plan = models::text_or_empty(task.plan_path);
            &&& sections::section(input, "TITLE"@) == sections::came_back(task.title@)
            &&& sections::section(input, "DESCRIPTION"@) == sections::came_back(task.description@)
            &&& sections::section(input, "REPO_PATH"@) == sections::came_back(task.repo_path@)
            &&& sections::section(input, "STATUS"@) == task.status.word()
            &&& sections::section(input, "PLAN"@) == sections::came_back(plan)
            &&& sections::section(input, "TAG"@) == tag_word(task.tag)
            &&& sections::section(input, "BASE_BRANCH"@) == sections::came_back(task.base_branch@)
            &&& sections::section(input, "WRAP_UP_MODE"@) == mode_word(task.wrap_up_mode)
            &&& sections::section(input, "PHOENIX"@) == flag_word(task.phoenix)
            &&& sections::section(input, "URL"@) == sections::came_back(url_text(task.url))
            &&& sections::section(input, "URL_TYPE"@) == url_type_word(task.url)
        }),
{
    lemma_section_names();
    lemma_words_are_plain();
    let entries = task_sheet(task);
    assert forall|i: int| 0 <= i < entries.len() implies sections::plain_name(
        (#[trigger] entries[i]).0,
    ) && sections::headerless(entries[i].1) by {}
    sections::sheet_is_read_back(entries);
    let back = sections::read_back(entries);
    assert forall|i: int| 0 <= i < back.len() implies sections::by_name(back).dom().contains(
        (#[trigger] back[i]).0,
    ) && sections::by_name(back)[back[i].0] == back[i].1 by {
        assert forall|j: int| i < j < back.len() implies (#[trigger] back[j]).0 != back[i].0 by {
            assert(entries[j].0.len() != entries[i].0.len() || entries[j].0[0] != entries[i].0[0]);
        }
        sections::lemma_by_name_finds(back, i);
    }
    assert(back[0].0 == "TITLE"@ && back[1].0 == "DESCRIPTION"@ && back[2].0 == "REPO_PATH"@);
    assert(back[3].0 == "STATUS"@ && back[4].0 == "PLAN"@ && back[5].0 == "TAG"@);
    assert(back[6].0 == "BASE_BRANCH"@ && back[7].0 == "WRAP_UP_MODE"@ && back[8].0 == "PHOENIX"@);
    assert(back[9].0 == "URL"@ && back[10].0 == "URL_TYPE"@);
}

/// A task whose sheet comes back unchanged stays as it is: no text, status, plan,
/// tag, mode or flag changes, the url is left alone, and nothing is complained
/// of.
pub proof fn unchanged_task_sheet_changes_nothing(task: Task)
    requires
        carried_task(task),
    ensures
        ({
            let input = sections::sheet(task_sheet(task));
            let url = edited_url(
                sections::section(input, "URL"@),
                unless_empty(
                    sections::section(input, "URL_TYPE"@),
                    UrlType::named(sections::section(input, "URL_TYPE"@)),
                ),
                opt_url(task.url),
            );
            &&& kept_if_empty(sections::section(input, "TITLE"@), task.title@) == task.title@
            &&& kept_if_empty(sections::section(input, "DESCRIPTION"@), task.description@)
                == task.description@
            &&& kept_if_empty(sections::section(input, "REPO_PATH"@), task.repo_path@)
                == task.repo_path@
            &&& unless_empty(
                sections::section(input, "STATUS"@),
                TaskStatus::named(sections::section(input, "STATUS"@)),
            ) == Some(task.status)
            &&& unless_blank(sections::section(input, "PLAN"@)) == models::opt_text(task.plan_path)
            &&& unless_empty(
                sections::section(input, "TAG"@),
                TaskTag::named(sections::section(input, "TAG"@)),
            ) == task.tag
            &&& kept_if_empty(sections::section(input, "BASE_BRANCH"@), task.base_branch@)
                == task.base_branch@
            &&& unless_empty(
                sections::section(input, "WRAP_UP_MODE"@),
                WrapUpMode::named(sections::section(input, "WRAP_UP_MODE"@)),
            ) == task.wrap_up_mode
            &&& unless_empty(
                sections::section(input, "PHOENIX"@),
                yes_or_no(sections::section(input, "PHOENIX"@)),
            ) == Some(task.phoenix)
            &&& url == opt_url(task.url)
            &&& url_change(opt_url(task.url), url) is None
            &&& task_complaints(input) == Seq::<(Seq<char>, Seq<char>, Seq<char>)>::empty()
        }),
{
    task_sheet_is_read_back(task);
    models::words_are_read_back();
    lemma_words_are_plain();
    reveal_strlit("true");
    reveal_strlit("false");
    assert(text::lowered("true"@) =~= "true"@);
    assert(text::lowered("false"@) =~= "false"@);
    reveal_strlit("yes");
    reveal_strlit("on");
    reveal_strlit("1");
    assert("yes"@.len() == 3 && "on"@.len() == 2 && "1"@.len() == 1);
    assert(yes_or_no(flag_word(task.phoenix)) == Some(task.phoenix));
    let input = sections::sheet(task_sheet(task));
    assert(task_complaints(input) =~= Seq::empty());
}

/// An epic whose texts a sheet carries as they are, and whose interval, if it has
/// one, is one that can be waited for.
pub open spec fn carried_epic(epic: Epic) -> bool {
    &&& carried(epic.title@)
    &&& carried(epic.description@)
    &&& carried(models::text_or_empty(epic.feed_command))
    &&& epic.feed_command is Some ==> epic.feed_command->0@.len() > 0
    &&& epic.feed_interval_secs is Some ==> epic.feed_interval_secs->0 > 0
}

/// An epic whose sheet comes back unchanged stays as it is, and nothing is
/// complained of.
pub proof fn unchanged_epic_sheet_changes_nothing(epic: Epic)
    requires
        carried_epic(epic),
    ensures
        ({
            let input = sections::sheet(epic_sheet(epic));
            &&& sections::section(input, "TITLE"@) == epic.title@
            &&& sections::section(input, "DESCRIPTION"@) == epic.description@
            &&& kept_if_empty(sections::section(input, "TITLE"@), epic.title@) == epic.title@
            &&& kept_if_empty(sections::section(input, "DESCRIPTION"@), epic.description@)
                == epic.description@
            &&& unless_blank(sections::section(input, "FEED_COMMAND"@)) == models::opt_text(
                epic.feed_command,
            )
            &&& models::interval_secs(sections::section(input, "FEED_INTERVAL_SECS"@))
                == epic.feed_interval_secs
            &&& epic_complaints(input) == Seq::<(Seq<char>, Seq<char>, Seq<char>)>::empty()
        }),
{
    lemma_section_names();
    lemma_words_are_plain();
    let entries = epic_sheet(epic);
    let numeral = opt_decimal(epic.feed_interval_secs);
    match epic.feed_interval_secs {
        Some(n) => {
            text::lemma_numeral_of_number(n as nat);
            assert forall|i: int| 0 <= i < numeral.len() implies !text::is_white(
                #[trigger] numeral[i],
            ) && numeral[i] != '-' by {
                assert(text::is_digit(numeral[i]));
            }
            sections::lemma_word_is_plain(numeral);
        },
        None => {},
    }
    assert forall|i: int| 0 <= i < entries.len() implies sections::plain_name(
        (#[trigger] entries[i]).0,
    ) && sections::plain_content(entries[i].1) by {}
    sections::sheet_is_read_back(entries);
    let back = sections::read_back(entries);
    assert forall|i: int| 0 <= i < back.len() implies sections::by_name(back).dom().contains(
        (#[trigger] back[i]).0,
    ) && sections::by_name(back)[back[i].0] == back[i].1 by {
        assert forall|j: int| i < j < back.len() implies (#[trigger] back[j]).0 != back[i].0 by {
            assert(entries[j].0.len() != entries[i].0.len());
        }
        sections::lemma_by_name_finds(back, i);
    }
    assert(back[0].0 == "TITLE"@ && back[1].0 == "DESCRIPTION"@);
    assert(back[2].0 == "FEED_COMMAND"@ && back[3].0 == "FEED_INTERVAL_SECS"@);
    let input = sections::sheet(entries);
    assert(epic_complaints(input) =~= Seq::empty());
}

/// A description without a line that reads as a header is read back from the sheet
/// that it is shown on, without the white space round it. Carriage returns at the
/// ends of its lines do not come back; where there are none, nothing else is lost.
pub proof fn description_is_read_back(description: Seq<char>)
    requires
        sections::headerless(description),
    ensures
        sections::section(sections::sheet(seq![("DESCRIPTION"@, description)]), "DESCRIPTION"@)
            == sections::came_back(description),
        (forall|i: int|
            0 <= i < text::split_on(description, '\n').len() ==> text::strip_cr(
                #[trigger] text::split_on(description, '\n')[i],
            ) == text::split_on(description, '\n')[i]) ==> sections::section(
            sections::sheet(seq![("DESCRIPTION"@, description)]),
            "DESCRIPTION"@,
        ) == text::trim(description),
{
    lemma_section_names();
    let entries = seq![("DESCRIPTION"@, description)];
    assert forall|i: int| 0 <= i < entries.len() implies sections::plain_name(
        (#[trigger] entries[i]).0,
    ) && sections::headerless(entries[i].1) by {}
    sections::sheet_is_read_back(entries);
    sections::lemma_by_name_finds(sections::read_back(entries), 0);
    if forall|i: int|
        0 <= i < text::split_on(description, '\n').len() ==> text::strip_cr(
            #[trigger] text::split_on(description, '\n')[i],
        ) == text::split_on(description, '\n')[i] {
        sections::trimmed_content_comes_back(description);
    }
}

/// The editor is what `$VISUAL` says, in words; where that says nothing, what `$EDITOR`
/// says; and where that says nothing either, vi.
pub proof fn visual_comes_before_editor(visual: Option<&str>, editor: Option<&str>)
    ensures
        visual matches Some(v) ==> (text::words(v@).len() > 0 ==> editor_argv(visual, editor)
            == text::words(v@)),
        (visual is None || text::words(visual->0@).len() == 0) ==> (editor matches Some(e) ==> (
        text::words(e@).len() > 0 ==> editor_argv(visual, editor) == text::words(e@))),
        (visual is None || text::words(visual->0@).len() == 0) && (editor is None || text::words(
            editor->0@,
        ).len() == 0) ==> editor_argv(visual, editor) == seq!["vi"@],
{
}

/// Is it one of these words, but for capital letters?
pub open spec fn is_one_of(s: Seq<char>, words: Seq<Seq<char>>) -> bool {
    words.contains(text::lowered(s))
}

/// A yes is `true`, `yes`, `on` or `1`, and a no `false`, `no`, `off` or `0`, in capital
/// letters or not and with white space round it or not; everything else is neither.
pub proof fn yes_and_no_have_four_words_each(a: Seq<char>, word: Seq<char>, b: Seq<char>)
    requires
        text::all_white(a),
        text::all_white(b),
        word.len() > 0,
        !text::is_white(word[0]),
        !text::is_white(word[word.len() - 1]),
    ensures
        yes_or_no(a + word + b) == Some(true) <==> is_one_of(
            word,
            seq!["true"@, "yes"@, "on"@, "1"@],
        ),
        yes_or_no(a + word + b) == Some(false) <==> is_one_of(
            word,
            seq!["false"@, "no"@, "off"@, "0"@],
        ),
{
    reveal_strlit("true");
    reveal_strlit("yes");
    reveal_strlit("on");
    reveal_strlit("1");
    reveal_strlit("false");
    reveal_strlit("no");
    reveal_strlit("off");
    reveal_strlit("0");
    text::trimming_takes_the_white_space_round_it(a, word, b);
    let t = text::lowered(word);
    let yes = seq!["true"@, "yes"@, "on"@, "1"@];
    let no = seq!["false"@, "no"@, "off"@, "0"@];
    assert(yes[0] == "true"@ && yes[1] == "yes"@ && yes[2] == "on"@ && yes[3] == "1"@);
    assert(no[0] == "false"@ && no[1] == "no"@ && no[2] == "off"@ && no[3] == "0"@);
    assert("true"@[0] == 't' && "yes"@[0] == 'y' && "on"@[1] == 'n' && "1"@[0] == '1');
    assert("false"@[0] == 'f' && "no"@[0] == 'n' && "off"@.len() == 3 && "0"@[0] == '0');
    assert("true"@.len() == 4 && "yes"@.len() == 3 && "on"@.len() == 2 && "1"@.len() == 1);
    assert("false"@.len() == 5 && "no"@.len() == 2 && "0"@.len() == 1);
    assert("off"@[0] == 'o');
    assert("on"@[0] == 'o');
}

/// Is there a complaint about the field, with this content?
pub open spec fn complains_of(
    found: Seq<(Seq<char>, Seq<char>, Seq<char>)>,
    field: Seq<char>,
    raw: Seq<char>,
) -> bool {
    exists|i: int| 0 <= i < found.len() && (#[trigger] found[i]).0 == field && found[i].1 == raw
}

/// A section of a task's sheet is complained of exactly where something stands in it that
/// is not understood; an empty one is as good as none.
pub proof fn every_section_that_is_not_understood_is_told(input: Seq<char>)
    ensures
        ({
            let found = task_complaints(input);
            let status = sections::section(input, "STATUS"@);
            let tag = sections::section(input, "TAG"@);
            let mode = sections::section(input, "WRAP_UP_MODE"@);
            let url_type = sections::section(input, "URL_TYPE"@);
            let phoenix = sections::section(input, "PHOENIX"@);
            &&& complains_of(found, "STATUS"@, status) <==> status.len() > 0 && TaskStatus::named(
                status,
            ) is None
            &&& complains_of(found, "TAG"@, tag) <==> tag.len() > 0 && TaskTag::named(tag) is None
            &&& complains_of(found, "WRAP_UP_MODE"@, mode) <==> mode.len() > 0 && WrapUpMode::named(
                mode,
            ) is None
            &&& complains_of(found, "URL_TYPE"@, url_type) <==> url_type.len() > 0
                && UrlType::named(url_type) is None
            &&& complains_of(found, "PHOENIX"@, phoenix) <==> phoenix.len() > 0 && yes_or_no(
                phoenix,
            ) is None
        }),
{
    lemma_section_names();
    let found = task_complaints(input);
    let status = sections::section(input, "STATUS"@);
    let tag = sections::section(input, "TAG"@);
    let mode = sections::section(input, "WRAP_UP_MODE"@);
    let url_type = sections::section(input, "URL_TYPE"@);
    let phoenix = sections::section(input, "PHOENIX"@);
    let p1 = complaint("STATUS"@, status, TaskStatus::named(status) is Some, "unknown status: "@, ""@);
    let p2 = complaint("TAG"@, tag, TaskTag::named(tag) is Some, "unknown tag: "@, ""@);
    let p3 = complaint(
        "WRAP_UP_MODE"@,
        mode,
        WrapUpMode::named(mode) is Some,
        "unknown wrap-up mode: "@,
        " (valid: rebase, pr, done)"@,
    );
    let p4 = complaint(
        "URL_TYPE"@,
        url_type,
        UrlType::named(url_type) is Some,
        "unknown url type: "@,
        " (valid: pr, security_alert, issue, other)"@,
    );
    let p5 = complaint(
        "PHOENIX"@,
        phoenix,
        yes_or_no(phoenix) is Some,
        "not a yes/no value: "@,
        " (valid: true, false, yes, no, on, off, 1, 0)"@,
    );
    assert(found == p1 + p2 + p3 + p4 + p5);
    let n1 = p1.len() as int;
    let n2 = n1 + p2.len();
    let n3 = n2 + p3.len();
    let n4 = n3 + p4.len();
    if p1.len() > 0 {
        assert(found[0] == p1[0]);
    }
    if p2.len() > 0 {
        assert(found[n1] == p2[0]);
    }
    if p3.len() > 0 {
        assert(found[n2] == p3[0]);
    }
    if p4.len() > 0 {
        assert(found[n3] == p4[0]);
    }
    if p5.len() > 0 {
        assert(found[n4] == p5[0]);
    }
    assert forall|i: int| 0 <= i < found.len() implies ({
        let f = (#[trigger] found[i]).0;
        &&& f == "STATUS"@ ==> p1.len() > 0
        &&& f == "TAG"@ ==> p2.len() > 0
        &&& f == "WRAP_UP_MODE"@ ==> p3.len() > 0
        &&& f == "URL_TYPE"@ ==> p4.len() > 0
        &&& f == "PHOENIX"@ ==> p5.len() > 0
    }) by {
        if i < n1 {
            assert(found[i] == p1[0]);
        } else if i < n2 {
            assert(found[i] == p2[0]);
        } else if i < n3 {
            assert(found[i] == p3[0]);
        } else if i < n4 {
            assert(found[i] == p4[0]);
        } else {
            assert(found[i] == p5[0]);
        }
    }
}

/// An epic's interval is complained of exactly where something stands there that is none.
pub proof fn an_interval_that_is_none_is_told(input: Seq<char>)
    ensures
        ({
            let raw = sections::section(input, "FEED_INTERVAL_SECS"@);
            complains_of(epic_complaints(input), "FEED_INTERVAL_SECS"@, raw) <==> raw.len() > 0
                && models::interval_secs(raw) is None
        }),
        epic_complaints(input).len() <= 1,
{
    let raw = sections::section(input, "FEED_INTERVAL_SECS"@);
    if raw.len() > 0 && models::interval_secs(raw) is None {
        assert(epic_complaints(input)[0].0 == "FEED_INTERVAL_SECS"@);
    }
}

/// An edited url is what stands there, of the type that the edit names; where it names
/// none, a url that was not changed keeps its type and any other has the one it shows. No
/// text is no url. There is a change exactly where text or type differ.
pub proof fn an_edited_url_is_what_stands_there(
    raw: Seq<char>,
    explicit: Option<UrlType>,
    prior: Option<(Seq<char>, UrlType)>,
)
    ensures
        raw.len() == 0 ==> edited_url(raw, explicit, prior) is None,
        raw.len() > 0 ==> (explicit matches Some(named) ==> edited_url(raw, explicit, prior)
            == Some((raw, named))),
        raw.len() > 0 && explicit is None ==> (prior matches Some((text, had)) ==> (text == raw
            ==> edited_url(raw, explicit, prior) == Some((raw, had)))),
        raw.len() > 0 && explicit is None && !(prior matches Some((text, _)) && text == raw)
            ==> edited_url(raw, explicit, prior) == Some((raw, models::shown_type(raw))),
        url_change(prior, edited_url(raw, explicit, prior)) is None <==> edited_url(
            raw,
            explicit,
            prior,
        ) == prior,
        url_change(prior, edited_url(raw, explicit, prior)) matches Some(now) ==> now == edited_url(
            raw,
            explicit,
            prior,
        ),
{
}

/// What is left empty keeps what was there, where a field has to have something, and
/// clears it, where it has not; what is not empty is taken as it is.
pub proof fn an_empty_edit_keeps_or_clears(edited: Seq<char>, prior: Seq<char>)
    ensures
        kept_if_empty(Seq::<char>::empty(), prior) == prior,
        edited.len() > 0 ==> kept_if_empty(edited, prior) == edited,
        unless_blank(Seq::<char>::empty()) is None,
        edited.len() > 0 ==> unless_blank(edited) == Some(edited),
        unless_empty(Seq::<char>::empty(), Some(prior)) is None,
        edited.len() > 0 ==> unless_empty(edited, Some(prior)) == Some(prior),
{
}

/// A task's sheet has these sections, in this order, with what the task holds.
pub proof fn a_sheet_shows_the_whole_task(task: Task)
    ensures
        ({
            let s = task_sheet(task);
            &&& s.len() == 11
            &&& s[0] == ("TITLE"@, task.title@)
            &&& s[1] == ("DESCRIPTION"@, task.description@)
            &&& s[2] == ("REPO_PATH"@, task.repo_path@)
            &&& s[3] == ("STATUS"@, task.status.word())
            &&& s[6] == ("BASE_BRANCH"@, task.base_branch@)
            &&& task.plan_path matches Some(plan) ==> s[4] == ("PLAN"@, plan@)
            &&& task.tag matches Some(tag) ==> s[5] == ("TAG"@, tag.word())
            &&& task.wrap_up_mode matches Some(mode) ==> s[7] == ("WRAP_UP_MODE"@, mode.word())
            &&& s[8] == ("PHOENIX"@, if task.phoenix {
                "true"@
            } else {
                "false"@
            })
            &&& task.url matches Some(url) ==> s[9] == ("URL"@, url.url@) && s[10] == (
                "URL_TYPE"@,
                url.url_type.word(),
            )
        }),
{
}

/// Is there this complaint about the field?
pub open spec fn tells(
    found: Seq<(Seq<char>, Seq<char>, Seq<char>)>,
    field: Seq<char>,
    raw: Seq<char>,
    message: Seq<char>,
) -> bool {
    exists|i: int| 0 <= i < found.len() && #[trigger] found[i] == (field, raw, message)
}

/// A complaint names its section and quotes what stands there, in these words.
pub proof fn a_complaint_quotes_what_stands_there(input: Seq<char>)
    ensures
        ({
            let found = task_complaints(input);
            let status = sections::section(input, "STATUS"@);
            let tag = sections::section(input, "TAG"@);
            let mode = sections::section(input, "WRAP_UP_MODE"@);
            let url_type = sections::section(input, "URL_TYPE"@);
            let phoenix = sections::section(input, "PHOENIX"@);
            &&& status.len() > 0 && TaskStatus::named(status) is None ==> tells(
                found,
                "STATUS"@,
                status,
                "unknown status: "@ + debug_quoted(status),
            )
            &&& tag.len() > 0 && TaskTag::named(tag) is None ==> tells(
                found,
                "TAG"@,
                tag,
                "unknown tag: "@ + debug_quoted(tag),
            )
            &&& mode.len() > 0 && WrapUpMode::named(mode) is None ==> tells(
                found,
                "WRAP_UP_MODE"@,
                mode,
                "unknown wrap-up mode: "@ + debug_quoted(mode) + " (valid: rebase, pr, done)"@,
            )
            &&& url_type.len() > 0 && UrlType::named(url_type) is None ==> tells(
                found,
                "URL_TYPE"@,
                url_type,
                "unknown url type: "@ + debug_quoted(url_type)
                    + " (valid: pr, security_alert, issue, other)"@,
            )
            &&& phoenix.len() > 0 && yes_or_no(phoenix) is None ==> tells(
                found,
                "PHOENIX"@,
                phoenix,
                "not a yes/no value: "@ + debug_quoted(phoenix)
                    + " (valid: true, false, yes, no, on, off, 1, 0)"@,
            )
        }),
        ({
            let interval = sections::section(input, "FEED_INTERVAL_SECS"@);
            interval.len() > 0 && models::interval_secs(interval) is None ==> tells(
                epic_complaints(input),
                "FEED_INTERVAL_SECS"@,
                interval,
                "not a valid interval: "@ + debug_quoted(interval)
                    + (" (expected e.g. "@ + "300, 30s, 10m, 2h"@ + ")"@),
            )
        }),
{
    reveal_strlit("");
    let found = task_complaints(input);
    let status = sections::section(input, "STATUS"@);
    let tag = sections::section(input, "TAG"@);
    let mode = sections::section(input, "WRAP_UP_MODE"@);
    let url_type = sections::section(input, "URL_TYPE"@);
    let phoenix = sections::section(input, "PHOENIX"@);
    let interval = sections::section(input, "FEED_INTERVAL_SECS"@);
    assert("unknown status: "@ + debug_quoted(status) + ""@ =~= "unknown status: "@ + debug_quoted(
        status,
    ));
    assert("unknown tag: "@ + debug_quoted(tag) + ""@ =~= "unknown tag: "@ + debug_quoted(tag));
    let p1 = complaint("STATUS"@, status, TaskStatus::named(status) is Some, "unknown status: "@, ""@);
    let p2 = complaint("TAG"@, tag, TaskTag::named(tag) is Some, "unknown tag: "@, ""@);
    let p3 = complaint(
        "WRAP_UP_MODE"@,
        mode,
        WrapUpMode::named(mode) is Some,
        "unknown wrap-up mode: "@,
        " (valid: rebase, pr, done)"@,
    );
    let p4 = complaint(
        "URL_TYPE"@,
        url_type,
        UrlType::named(url_type) is Some,
        "unknown url type: "@,
        " (valid: pr, security_alert, issue, other)"@,
    );
    let p5 = complaint(
        "PHOENIX"@,
        phoenix,
        yes_or_no(phoenix) is Some,
        "not a yes/no value: "@,
        " (valid: true, false, yes, no, on, off, 1, 0)"@,
    );
    assert(found == p1 + p2 + p3 + p4 + p5);
    let n1 = p1.len() as int;
    let n2 = n1 + p2.len();
    let n3 = n2 + p3.len();
    let n4 = n3 + p4.len();
    if p1.len() > 0 {
        assert(found[0] == p1[0]);
    }
    if p2.len() > 0 {
        assert(found[n1] == p2[0]);
    }
    if p3.len() > 0 {
        assert(found[n2] == p3[0]);
    }
    if p4.len() > 0 {
        assert(found[n3] == p4[0]);
    }
    if p5.len() > 0 {
        assert(found[n4] == p5[0]);
    }
    if interval.len() > 0 && models::interval_secs(interval) is None {
        assert(epic_complaints(input)[0] == (
            "FEED_INTERVAL_SECS"@,
            interval,
            "not a valid interval: "@ + debug_quoted(interval) + (" (expected e.g. "@
                + "300, 30s, 10m, 2h"@ + ")"@),
        ));
    }
}

/// An epic's sheet has these sections, in this order, with what the epic holds.
pub proof fn a_sheet_shows_the_whole_epic(epic: Epic)
    ensures
        ({
            let s = epic_sheet(epic);
            &&& s.len() == 4
            &&& s[0] == ("TITLE"@, epic.title@)
            &&& s[1] == ("DESCRIPTION"@, epic.description@)
            &&& epic.feed_command matches Some(command) ==> s[2] == ("FEED_COMMAND"@, command@)
            &&& epic.feed_interval_secs matches Some(secs) ==> s[3] == (
                "FEED_INTERVAL_SECS"@,
                text::decimal(secs as int),
            )
        }),
{
}

} // verus!

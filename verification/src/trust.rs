//! Which repositories the user's agent is trusted with, as its settings file
//! says it.

use vstd::prelude::*;

use crate::json;
use crate::json::Json;
use crate::models;
use crate::text;

verus! {

/// Why the settings could not be read or changed.
#[derive(Clone, Debug, PartialEq, Eq)]
pub enum TrustError {
    /// The file holds no JSON; and what is wrong with it.
    Malformed(String),
    /// The file holds something other than an object.
    RootNotObject,
    /// The projects are something other than an object.
    ProjectsNotObject,
    /// The project is something other than an object.
    EntryNotObject,
    /// The settings could not be written as text.
    NotWritten,
}

/// [`TrustError`] as values.
pub enum TrustErrorView {
    Malformed(Seq<char>),
    RootNotObject,
    ProjectsNotObject,
    EntryNotObject,
    NotWritten,
}

impl View for TrustError {
    type V = TrustErrorView;

    open spec fn view(&self) -> TrustErrorView {
        match self {
            TrustError::Malformed(why) => TrustErrorView::Malformed(why@),
            TrustError::RootNotObject => TrustErrorView::RootNotObject,
            TrustError::ProjectsNotObject => TrustErrorView::ProjectsNotObject,
            TrustError::EntryNotObject => TrustErrorView::EntryNotObject,
            TrustError::NotWritten => TrustErrorView::NotWritten,
        }
    }
}

impl TrustErrorView {
    /// The error in words, about a settings file at a path that users know by a
    /// name.
    pub open spec fn words(self, path: Seq<char>, name: Seq<char>) -> Seq<char> {
        match self {
            TrustErrorView::Malformed(why) => "failed to parse "@ + path + ": "@ + why,
            TrustErrorView::RootNotObject => name + " root is not a JSON object"@,
            TrustErrorView::ProjectsNotObject => name + " 'projects' is not a JSON object"@,
            TrustErrorView::EntryNotObject => "project entry is not a JSON object"@,
            TrustErrorView::NotWritten => "failed to serialize "@ + name,
        }
    }
}

impl TrustError {
    /// The error in words, about a settings file at a path that users know by a
    /// name.
    pub fn to_message(&self, path: &str, name: &str) -> (r: String)
        ensures
            r@ == self@.words(path@, name@),
    {
        match self {
            TrustError::Malformed(why) => "failed to parse ".to_owned().concat(path).concat(
                ": ",
            ).concat(why.as_str()),
            TrustError::RootNotObject => name.to_owned().concat(" root is not a JSON object"),
            TrustError::ProjectsNotObject => name.to_owned().concat(
                " 'projects' is not a JSON object",
            ),
            TrustError::EntryNotObject => "project entry is not a JSON object".to_owned(),
            TrustError::NotWritten => "failed to serialize ".to_owned().concat(name),
        }
    }
}

/// The member that holds the projects.
pub const PROJECTS_KEY: &'static str = "projects";

/// The member that says that a project is trusted.
pub const TRUST_KEY: &'static str = "hasTrustDialogAccepted";

/// The name of a repository among the projects: its path with the home directory
/// in place, and without slashes at its end.
pub open spec fn key_of(repo_path: Seq<char>, home: Seq<char>) -> Seq<char> {
    text::strip_backs(models::tilde_expanded(repo_path, home), "/"@)
}

/// The name of a repository among the projects.
pub fn project_key(repo_path: &str, home: &str) -> (r: String)
    ensures
        r@ == key_of(repo_path@, home@),
{
    let expanded: String = models::expand_tilde(repo_path, home);
    text::without_backs(expanded.as_str(), "/")
}

/// What a JSON value holds under a key.
pub open spec fn under(j: Json, key: Seq<char>) -> Option<Json> {
    match j {
        Json::Object(members) => if members.dom().contains(key) {
            Some(members[key])
        } else {
            None
        },
        _ => None,
    }
}

/// Do the settings say that the project is trusted?
pub open spec fn says_trusted(j: Json, key: Seq<char>) -> bool {
    match under(j, PROJECTS_KEY@) {
        Some(projects) => match under(projects, key) {
            Some(entry) => under(entry, TRUST_KEY@) == Some(Json::Flag(true)),
            None => false,
        },
        None => false,
    }
}

/// Do these settings say that the project is trusted?
pub fn is_trusted_in(json: &serde_json::Value, key: &str) -> (r: bool)
    ensures
        r == says_trusted(json::json_content(*json), key@),
{
    let projects: serde_json::Value = match json::member(json, PROJECTS_KEY) {
        Some(projects) => projects,
        None => {
            return false;
        },
    };
    let entry: serde_json::Value = match json::member(&projects, key) {
        Some(entry) => entry,
        None => {
            return false;
        },
    };
    match json::member(&entry, TRUST_KEY) {
        Some(flag) => match json::as_flag(&flag) {
            Some(flag) => flag,
            None => false,
        },
        None => false,
    }
}

/// An optional text, as a value.
pub open spec fn opt_slice(s: Option<&str>) -> Option<Seq<char>> {
    match s {
        Some(s) => Some(s@),
        None => None,
    }
}

/// Is a project trusted, by the text of the settings file? Without a file none is.
pub open spec fn trusts(settings: Option<Seq<char>>, key: Seq<char>) -> Result<
    bool,
    TrustErrorView,
> {
    match settings {
        None => Ok(false),
        Some(content) => match json::json_value(content) {
            Ok(json) => Ok(says_trusted(json::json_content(json), key)),
            Err(e) => Err(TrustErrorView::Malformed(json::json_complaint(e))),
        },
    }
}

/// Is the repository trusted, by the text of the settings file?
pub fn is_repo_trusted(settings: Option<&str>, repo_path: &str, home: &str) -> (r: Result<
    bool,
    TrustError,
>)
    ensures
        match (r, trusts(opt_slice(settings), key_of(repo_path@, home@))) {
            (Ok(trusted), Ok(says)) => trusted == says,
            (Err(error), Err(view)) => error@ == view,
            _ => false,
        },
{
    let content = match settings {
        Some(content) => content,
        None => {
            return Ok(false);
        },
    };
    let key: String = project_key(repo_path, home);
    match json::parse_json(content) {
        Ok(json) => Ok(is_trusted_in(&json, key.as_str())),
        Err(e) => Err(TrustError::Malformed(json::complaint(&e))),
    }
}

/// The object without members.
pub open spec fn blank() -> serde_json::Value {
    json::json_value("{}"@)->Ok_0
}

/// A member, or the object without members where there is none.
pub open spec fn member_or_blank(v: serde_json::Value, key: Seq<char>) -> serde_json::Value {
    match json::json_member(v, key) {
        Some(m) => m,
        None => blank(),
    }
}

/// What a JSON value holds under a key, or what the object without members holds.
pub open spec fn under_or_blank(j: Json, key: Seq<char>) -> Json {
    match under(j, key) {
        Some(m) => m,
        None => Json::Object(Map::empty()),
    }
}

/// Why the settings cannot say that a project is trusted; `None` where they can.
pub open spec fn trust_refusal(j: Json, key: Seq<char>) -> Option<TrustErrorView> {
    if !(j is Object) {
        Some(TrustErrorView::RootNotObject)
    } else if !(under_or_blank(j, PROJECTS_KEY@) is Object) {
        Some(TrustErrorView::ProjectsNotObject)
    } else if !(under_or_blank(under_or_blank(j, PROJECTS_KEY@), key) is Object) {
        Some(TrustErrorView::EntryNotObject)
    } else {
        None
    }
}

/// What an object holds once a member is set.
pub open spec fn with(j: Json, key: Seq<char>, m: Json) -> Json {
    match j {
        Json::Object(members) => Json::Object(members.insert(key, m)),
        other => other,
    }
}

/// What the settings hold once they say that the project is trusted. Nothing else
/// in them changes.
pub open spec fn trusting(j: Json, key: Seq<char>) -> Json {
    let projects = under_or_blank(j, PROJECTS_KEY@);
    let entry = under_or_blank(projects, key);
    with(j, PROJECTS_KEY@, with(projects, key, with(entry, TRUST_KEY@, Json::Flag(true))))
}

/// The settings once they say that the project is trusted.
pub open spec fn trusting_value(v: serde_json::Value, key: Seq<char>) -> serde_json::Value {
    let projects = member_or_blank(v, PROJECTS_KEY@);
    let entry = member_or_blank(projects, key);
    json::json_with(
        v,
        PROJECTS_KEY@,
        json::json_with(projects, key, json::json_with(entry, TRUST_KEY@, json::json_flag(true))),
    )
}

fn member_or_empty(v: &serde_json::Value, key: &str) -> (r: serde_json::Value)
    ensures
        r == member_or_blank(*v, key@),
        json::json_content(r) == under_or_blank(json::json_content(*v), key@),
{
    match json::member(v, key) {
        Some(m) => m,
        None => json::empty_object(),
    }
}

/// Have the settings say that the project is trusted.
pub fn trust_in(json: serde_json::Value, key: &str) -> (r: Result<serde_json::Value, TrustError>)
    ensures
        match trust_refusal(json::json_content(json), key@) {
            Some(refusal) => r matches Err(error) && error@ == refusal,
            None => r matches Ok(v) && v == trusting_value(json, key@) && json::json_content(v)
                == trusting(json::json_content(json), key@) && trusting_value(v, key@) == v,
        },
{
    if !json::is_object(&json) {
        return Err(TrustError::RootNotObject);
    }
    let projects: serde_json::Value = member_or_empty(&json, PROJECTS_KEY);
    if !json::is_object(&projects) {
        return Err(TrustError::ProjectsNotObject);
    }
    let entry: serde_json::Value = member_or_empty(&projects, key);
    if !json::is_object(&entry) {
        return Err(TrustError::EntryNotObject);
    }
    let entry: serde_json::Value = json::with_member(entry, TRUST_KEY, json::flag_value(true));
    let projects: serde_json::Value = json::with_member(projects, key, entry);
    Ok(json::with_member(json, PROJECTS_KEY, projects))
}

/// The value that the settings file holds, or why it holds none. A file that is
/// not there holds the object without members.
pub open spec fn settings_value(settings: Option<Seq<char>>) -> Result<
    serde_json::Value,
    TrustErrorView,
> {
    match settings {
        Some(content) => match json::json_value(content) {
            Ok(json) => Ok(json),
            Err(e) => Err(TrustErrorView::Malformed(json::json_complaint(e))),
        },
        None => Ok(blank()),
    }
}

/// The text of the settings file once it says that a project is trusted, or why it
/// cannot say so.
pub open spec fn trusted_text(settings: Option<Seq<char>>, key: Seq<char>) -> Result<
    Seq<char>,
    TrustErrorView,
> {
    match settings_value(settings) {
        Err(error) => Err(error),
        Ok(json) => match trust_refusal(json::json_content(json), key) {
            Some(refusal) => Err(refusal),
            None => Ok(json::json_pretty(trusting_value(json, key))),
        },
    }
}

/// Are the settings such that their text is read as what it was written from? All
/// numbers in them have to be integers, and the nesting not too deep.
pub open spec fn steady(settings: Option<Seq<char>>) -> bool {
    match settings {
        Some(content) => json::json_value(content) matches Ok(json) && json::modest(
            json::json_content(json),
            json::NESTING as nat,
        ),
        None => true,
    }
}

/// The text of the settings file once it says that the repository is trusted.
///
/// Where it can be read again, it holds what the settings held, with that repository
/// trusted and all else as it was; so it trusts that repository, and every other one
/// that was trusted before, and no more. Where it is read as the value that it was
/// written from, to trust the repository once more leaves it as it is. Settings without
/// other numbers than integers, and not nested too deeply, are read so.
pub fn trust_repo(settings: Option<&str>, repo_path: &str, home: &str) -> (r: Result<
    String,
    TrustError,
>)
    ensures
        match (r, trusted_text(opt_slice(settings), key_of(repo_path@, home@))) {
            (Ok(updated), Ok(text)) => updated@ == text,
            (Err(error), Err(view)) => error@ == view,
            _ => false,
        },
        settings is None ==> r is Ok,
        r is Ok ==> settings_value(opt_slice(settings)) is Ok,
        r matches Ok(updated) ==> steady(opt_slice(settings)) ==> json::reads_as(
            updated@,
            trusting_value(
                settings_value(opt_slice(settings))->Ok_0,
                key_of(repo_path@, home@),
            ),
        ),
        r matches Ok(updated) ==> (json::json_value(updated@) matches Ok(back)
            ==> json::json_content(back) == trusting(
            json::json_content(settings_value(opt_slice(settings))->Ok_0),
            key_of(repo_path@, home@),
        )),
        r matches Ok(updated) ==> json::json_value(updated@) is Ok ==> forall|key: Seq<char>|
            #[trigger]
            trusts(Some(updated@), key) == Ok::<bool, TrustErrorView>(
                key == key_of(repo_path@, home@) || trusts(opt_slice(settings), key) == Ok::<
                    bool,
                    TrustErrorView,
                >(true),
            ),
        r matches Ok(updated) ==> json::json_value(updated@) is Ok ==> trusted_text(
            Some(updated@),
            key_of(repo_path@, home@),
        ) is Ok,
        r matches Ok(updated) ==> json::reads_as(
            updated@,
            trusting_value(
                settings_value(opt_slice(settings))->Ok_0,
                key_of(repo_path@, home@),
            ),
        ) ==> trusted_text(Some(updated@), key_of(repo_path@, home@)) == Ok::<
            Seq<char>,
            TrustErrorView,
        >(updated@),
{
    let json: serde_json::Value = match settings {
        Some(content) => match json::parse_json(content) {
            Ok(json) => json,
            Err(e) => {
                return Err(TrustError::Malformed(json::complaint(&e)));
            },
        },
        None => json::empty_object(),
    };
    let key: String = project_key(repo_path, home);
    let ghost before = json::json_content(json);
    match trust_in(json, key.as_str()) {
        Ok(json) => {
            proof {
                trusting_is_trusted(before, key@);
                trusting_twice_changes_nothing(before, key@);
                assert forall|other: Seq<char>| #[trigger]
                    says_trusted(trusting(before, key@), other) == (other == key@ || says_trusted(
                        before,
                        other,
                    )) by {
                    trusting_keeps_the_rest(before, key@, other);
                }
                if json::modest(before, json::NESTING as nat) {
                    trusting_stays_modest(before, key@, json::NESTING as nat);
                }
            }
            match json::pretty(&json) {
                Ok(updated) => Ok(updated),
                Err(_) => Err(TrustError::NotWritten),
            }
        },
        Err(error) => Err(error),
    }
}

/// Settings that can be written and read again can be so still once they say that
/// a project is trusted.
pub proof fn trusting_stays_modest(j: Json, key: Seq<char>, depth: nat)
    requires
        trust_refusal(j, key) is None,
        json::modest(j, depth),
        depth >= 3,
    ensures
        json::modest(trusting(j, key), depth),
{
    let projects = under_or_blank(j, PROJECTS_KEY@);
    let entry = under_or_blank(projects, key);
    assert(json::modest(projects, (depth - 1) as nat));
    assert(json::modest(entry, (depth - 2) as nat));
    assert(json::modest(Json::Flag(true), (depth - 3) as nat));
    let once = with(entry, TRUST_KEY@, Json::Flag(true));
    assert(json::modest(once, (depth - 2) as nat));
    assert(json::modest(with(projects, key, once), (depth - 1) as nat));
}

/// A project that the settings were made to trust is trusted by them.
pub proof fn trusting_is_trusted(j: Json, key: Seq<char>)
    requires
        trust_refusal(j, key) is None,
    ensures
        says_trusted(trusting(j, key), key),
{
}

/// Trusting a project twice is trusting it once.
pub proof fn trusting_twice_changes_nothing(j: Json, key: Seq<char>)
    requires
        trust_refusal(j, key) is None,
    ensures
        trust_refusal(trusting(j, key), key) is None,
        trusting(trusting(j, key), key) == trusting(j, key),
{
    let projects = under_or_blank(j, PROJECTS_KEY@);
    let entry = under_or_blank(projects, key);
    let once = with(entry, TRUST_KEY@, Json::Flag(true));
    let all = with(projects, key, once);
    let j1 = trusting(j, key);
    assert(entry->Object_0.insert(TRUST_KEY@, Json::Flag(true)).insert(TRUST_KEY@, Json::Flag(true))
        =~= entry->Object_0.insert(TRUST_KEY@, Json::Flag(true)));
    assert(with(once, TRUST_KEY@, Json::Flag(true)) == once);
    assert(projects->Object_0.insert(key, once).insert(key, once) =~= projects->Object_0.insert(
        key,
        once,
    ));
    assert(with(all, key, once) == all);
    assert(j->Object_0.insert(PROJECTS_KEY@, all).insert(PROJECTS_KEY@, all)
        =~= j->Object_0.insert(PROJECTS_KEY@, all));
}

/// Trusting a project leaves everything else in the settings as it was: the other
/// settings, the other projects, and what else is said of the project.
pub proof fn trusting_keeps_the_rest(j: Json, key: Seq<char>, other: Seq<char>)
    requires
        trust_refusal(j, key) is None,
    ensures
        other != PROJECTS_KEY@ ==> under(trusting(j, key), other) == under(j, other),
        other != key ==> under(under_or_blank(trusting(j, key), PROJECTS_KEY@), other) == under(
            under_or_blank(j, PROJECTS_KEY@),
            other,
        ),
        other != TRUST_KEY@ ==> under(
            under_or_blank(under_or_blank(trusting(j, key), PROJECTS_KEY@), key),
            other,
        ) == under(under_or_blank(under_or_blank(j, PROJECTS_KEY@), key), other),
        other != key ==> says_trusted(trusting(j, key), other) == says_trusted(j, other),
{
}

/// A repository is known by its path without slashes at its end, however many there are,
/// and with the home directory in the place of a tilde.
pub proof fn slashes_at_the_end_make_no_difference(
    path: Seq<char>,
    rest: Seq<char>,
    home: Seq<char>,
)
    requires
        path.len() > 0,
        path[0] != '~',
        path.last() != '/',
        rest.len() > 0,
        rest.last() != '/',
    ensures
        key_of(path, home) == path,
        key_of(path.push('/'), home) == path,
        key_of(path.push('/').push('/'), home) == path,
        key_of(seq!['~', '/'] + rest, home) == home + seq!['/'] + rest,
{
    reveal_strlit("/");
    let slash = "/"@;
    assert(slash =~= seq!['/']);
    assert(path.push('/') =~= path + slash);
    assert(path.push('/').push('/') =~= path.push('/') + slash);
    models::a_tilde_is_the_home_directory(rest, path, home);
    models::a_tilde_is_the_home_directory(rest, path.push('/'), home);
    models::a_tilde_is_the_home_directory(rest, path.push('/').push('/'), home);
    text::every_part_at_the_back_goes(path, slash);
    text::every_part_at_the_back_goes(path.push('/'), slash);
    let long = home + seq!['/'] + rest;
    text::every_part_at_the_back_goes(long, slash);
    assert(!slash.is_suffix_of(path)) by {
        if slash.is_suffix_of(path) {
            assert(path.subrange(path.len() - 1, path.len() as int)[0] == slash[0]);
        }
    }
    assert(long.last() == rest.last());
    assert(!slash.is_suffix_of(long)) by {
        if slash.is_suffix_of(long) {
            assert(long.subrange(long.len() - 1, long.len() as int)[0] == slash[0]);
        }
    }
}

/// A project is trusted exactly where its entry among the projects says so with a plain
/// `true`.
pub proof fn only_a_plain_yes_is_trust(
    settings: Map<Seq<char>, Json>,
    projects: Map<Seq<char>, Json>,
    entry: Map<Seq<char>, Json>,
    key: Seq<char>,
)
    requires
        settings.dom().contains("projects"@) ==> settings["projects"@] == Json::Object(projects),
        projects.dom().contains(key) ==> projects[key] == Json::Object(entry),
    ensures
        says_trusted(Json::Object(settings), key) <==> settings.dom().contains("projects"@)
            && projects.dom().contains(key) && entry.dom().contains("hasTrustDialogAccepted"@)
            && entry["hasTrustDialogAccepted"@] == Json::Flag(true),
        trust_refusal(Json::Object(settings), key) is None,
{
}

/// What is no object where one belongs is refused, at the first place where that is so,
/// and trusts nothing.
pub proof fn what_is_no_object_is_refused(
    j: Json,
    settings: Map<Seq<char>, Json>,
    projects: Map<Seq<char>, Json>,
    key: Seq<char>,
)
    ensures
        !(j is Object) ==> trust_refusal(j, key) == Some(TrustErrorView::RootNotObject)
            && !says_trusted(j, key),
        !(j is Object) ==> trust_refusal(Json::Object(settings.insert("projects"@, j)), key)
            == Some(TrustErrorView::ProjectsNotObject) && !says_trusted(
            Json::Object(settings.insert("projects"@, j)),
            key,
        ),
        !(j is Object) ==> {
            let inner = Json::Object(projects.insert(key, j));
            let all = Json::Object(settings.insert("projects"@, inner));
            trust_refusal(all, key) == Some(TrustErrorView::EntryNotObject) && !says_trusted(
                all,
                key,
            )
        },
{
}

/// Without a settings file nothing is trusted; one that is no JSON is an error, and never
/// read as a yes or a no.
pub proof fn without_settings_nothing_is_trusted(content: Seq<char>, key: Seq<char>)
    ensures
        trusts(None, key) == Ok::<bool, TrustErrorView>(false),
        json::json_value(content) is Err ==> trusts(Some(content), key) is Err && trusted_text(
            Some(content),
            key,
        ) is Err,
        json::json_value(content) is Ok ==> trusts(Some(content), key) is Ok,
{
}

/// What is said of settings that cannot be read or written, word for word.
pub proof fn bad_settings_are_told_in_these_words(
    why: Seq<char>,
    path: Seq<char>,
    name: Seq<char>,
)
    ensures
        TrustErrorView::Malformed(why).words(path, name) == "failed to parse "@ + path + ": "@
            + why,
        TrustErrorView::RootNotObject.words(path, name) == name + " root is not a JSON object"@,
        TrustErrorView::ProjectsNotObject.words(path, name) == name
            + " 'projects' is not a JSON object"@,
        TrustErrorView::EntryNotObject.words(path, name) == "project entry is not a JSON object"@,
        TrustErrorView::NotWritten.words(path, name) == "failed to serialize "@ + name,
{
}

} // verus!

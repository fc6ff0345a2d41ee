//! What a feed command writes: a JSON list of items.

use vstd::prelude::*;

use crate::feed::entries;
use crate::json;
use crate::json::Json;
use crate::models::{FeedItem, FeedItemView, Signal, TaskStatus, TaskTag, UrlType, WrapUpMode};
use crate::text;

verus! {

/// Why an emission is refused. One bad item refuses all of it: what is wrong with
/// it is the command's fault, and dropping the item would hide that.
#[derive(Clone, Debug, PartialEq, Eq)]
pub enum FeedParseError {
    /// The output is no JSON; and what is wrong with it.
    Malformed(String),
    /// The output is JSON, but no list.
    NoList,
    /// The item at this index lacks a field, or has one that cannot be.
    BadItem(usize),
    /// This item is tagged for a review and names no pull request.
    NoPullRequest { external_id: String, tag: TaskTag },
}

/// [`FeedParseError`] as values.
pub enum FeedParseErrorView {
    Malformed(Seq<char>),
    NoList,
    BadItem(int),
    NoPullRequest { external_id: Seq<char>, tag: TaskTag },
}

impl View for FeedParseError {
    type V = FeedParseErrorView;

    open spec fn view(&self) -> FeedParseErrorView {
        match self {
            FeedParseError::Malformed(why) => FeedParseErrorView::Malformed(why@),
            FeedParseError::NoList => FeedParseErrorView::NoList,
            FeedParseError::BadItem(i) => FeedParseErrorView::BadItem(*i as int),
            FeedParseError::NoPullRequest { external_id, tag } => FeedParseErrorView::NoPullRequest {
                external_id: external_id@,
                tag: *tag,
            },
        }
    }
}

impl FeedParseErrorView {
    /// The error in words.
    pub open spec fn message(self) -> Seq<char> {
        match self {
            FeedParseErrorView::Malformed(why) => why,
            FeedParseErrorView::NoList => "the output is no JSON list of items"@,
            FeedParseErrorView::BadItem(i) => "item "@ + text::decimal(i) + " is no feed item"@,
            FeedParseErrorView::NoPullRequest { external_id, tag } => "item "@ + external_id
                + " is tagged "@ + tag.word() + " and names no pull request"@,
        }
    }
}

impl FeedParseError {
    /// The error in words.
    pub fn to_message(&self) -> (r: String)
        ensures
            r@ == self@.message(),
    {
        match self {
            FeedParseError::Malformed(why) => why.clone(),
            FeedParseError::NoList => "the output is no JSON list of items".to_owned(),
            FeedParseError::BadItem(i) => {
                let number: String = text::decimal_u64(*i as u64);
                "item ".to_owned().concat(number.as_str()).concat(" is no feed item")
            },
            FeedParseError::NoPullRequest { external_id, tag } => "item ".to_owned().concat(
                external_id.as_str(),
            ).concat(" is tagged ").concat(tag.as_str()).concat(" and names no pull request"),
        }
    }
}

/// The text of a member that has to be there.
pub open spec fn needed_text(members: Map<Seq<char>, Json>, key: Seq<char>) -> Option<Seq<char>> {
    if members.dom().contains(key) {
        match members[key] {
            Json::Text(s) => Some(s),
            _ => None,
        }
    } else {
        None
    }
}

/// The text of a member that may be left out, which is as good as empty.
pub open spec fn text_if_any(members: Map<Seq<char>, Json>, key: Seq<char>) -> Option<Seq<char>> {
    if members.dom().contains(key) {
        needed_text(members, key)
    } else {
        Some(Seq::empty())
    }
}

/// The word of a member that may be left out or null; `None` where the member is
/// something else.
pub open spec fn word_if_any(members: Map<Seq<char>, Json>, key: Seq<char>) -> Option<
    Option<Seq<char>>,
> {
    if !members.dom().contains(key) || members[key] is Null {
        Some(None)
    } else {
        match members[key] {
            Json::Text(s) => Some(Some(s)),
            _ => None,
        }
    }
}

/// The number of a member that may be left out or null.
pub open spec fn number_if_any(members: Map<Seq<char>, Json>, key: Seq<char>) -> Option<Option<i64>> {
    if !members.dom().contains(key) || members[key] is Null {
        Some(None)
    } else {
        match members[key] {
            Json::Number(Some(n)) => if i64::MIN <= n <= i64::MAX {
                Some(Some(n as i64))
            } else {
                None
            },
            _ => None,
        }
    }
}

/// The texts of a list; `None` where it holds something else.
pub open spec fn all_texts(items: Seq<Json>) -> Option<Seq<Seq<char>>>
    decreases items.len(),
{
    if items.len() == 0 {
        Some(Seq::empty())
    } else {
        match (all_texts(items.drop_last()), items.last()) {
            (Some(before), Json::Text(s)) => Some(before.push(s)),
            _ => None,
        }
    }
}

/// The texts of a member that is a list and may be left out.
pub open spec fn texts_if_any(members: Map<Seq<char>, Json>, key: Seq<char>) -> Option<
    Seq<Seq<char>>,
> {
    if !members.dom().contains(key) {
        Some(Seq::empty())
    } else {
        match members[key] {
            Json::List(items) => all_texts(items),
            _ => None,
        }
    }
}

/// The signals that words name. A word that names none is passed over: a newer
/// command may know more of them.
pub open spec fn known_signals(words: Seq<Seq<char>>) -> Seq<Signal>
    decreases words.len(),
{
    if words.len() == 0 {
        Seq::empty()
    } else {
        let before = known_signals(words.drop_last());
        match Signal::named(words.last()) {
            Some(signal) => before.push(signal),
            None => before,
        }
    }
}

/// The item that a JSON value describes; `None` where it describes none. A tag, a
/// status, a url type or a wrap-up mode that is not known is an error, a signal
/// is not.
pub open spec fn described(value: Json) -> Option<FeedItemView> {
    match value {
        Json::Object(members) => {
            match (
                needed_text(members, "external_id"@),
                needed_text(members, "title"@),
                needed_text(members, "description"@),
                text_if_any(members, "url"@),
                typed(word_if_any(members, "url_type"@)),
                match needed_text(members, "status"@) {
                    Some(word) => TaskStatus::named(word),
                    None => None,
                },
                match needed_text(members, "tag"@) {
                    Some(word) => TaskTag::named(word),
                    None => None,
                },
                texts_if_any(members, "labels"@),
                number_if_any(members, "sort_order"@),
                texts_if_any(members, "signals"@),
                moded(word_if_any(members, "wrap_up_mode"@)),
            ) {
                (
                    Some(external_id),
                    Some(title),
                    Some(description),
                    Some(url),
                    Some(url_type),
                    Some(status),
                    Some(tag),
                    Some(labels),
                    Some(sort_order),
                    Some(words),
                    Some(wrap_up_mode),
                ) => Some(
                    FeedItemView {
                        external_id,
                        title,
                        description,
                        url,
                        url_type,
                        status,
                        tag,
                        labels,
                        sort_order,
                        signals: known_signals(words),
                        wrap_up_mode,
                    },
                ),
                _ => None,
            }
        },
        _ => None,
    }
}

/// The url type that an optional word names.
pub open spec fn typed(word: Option<Option<Seq<char>>>) -> Option<Option<UrlType>> {
    match word {
        Some(None) => Some(None),
        Some(Some(s)) => match UrlType::named(s) {
            Some(url_type) => Some(Some(url_type)),
            None => None,
        },
        None => None,
    }
}

/// The wrap-up mode that an optional word names.
pub open spec fn moded(word: Option<Option<Seq<char>>>) -> Option<Option<WrapUpMode>> {
    match word {
        Some(None) => Some(None),
        Some(Some(s)) => match WrapUpMode::named(s) {
            Some(mode) => Some(Some(mode)),
            None => None,
        },
        None => None,
    }
}

/// The items that a list describes, up to the first value that describes none.
pub open spec fn items_in(values: Seq<Json>) -> Seq<FeedItemView>
    decreases values.len(),
{
    if values.len() == 0 {
        Seq::empty()
    } else {
        match described(values[0]) {
            Some(item) => seq![item] + items_in(values.skip(1)),
            None => Seq::empty(),
        }
    }
}

/// The first item that a feed may not emit.
pub open spec fn first_invalid(items: Seq<FeedItemView>) -> Option<FeedItemView>
    decreases items.len(),
{
    if items.len() == 0 {
        None
    } else if !items[0].valid() {
        Some(items[0])
    } else {
        first_invalid(items.skip(1))
    }
}

/// The items of an emission, or why it is refused.
pub open spec fn emission(bytes: Seq<u8>) -> Result<Seq<FeedItemView>, FeedParseErrorView> {
    match json::json_of_bytes(bytes) {
        Ok(value) => emission_of(json::json_content(value)),
        Err(e) => Err(FeedParseErrorView::Malformed(json::json_complaint(e))),
    }
}

/// The items of an emission that is JSON, or why it is refused.
pub open spec fn emission_of(value: Json) -> Result<Seq<FeedItemView>, FeedParseErrorView> {
    match value {
        Json::List(values) => {
            let items = items_in(values);
            if items.len() < values.len() {
                Err(FeedParseErrorView::BadItem(items.len() as int))
            } else {
                match first_invalid(items) {
                    Some(item) => Err(
                        FeedParseErrorView::NoPullRequest {
                            external_id: item.external_id,
                            tag: item.tag,
                        },
                    ),
                    None => Ok(items),
                }
            }
        },
        _ => Err(FeedParseErrorView::NoList),
    }
}

/// An accepted emission describes an item with each of its values, in their
/// order, and each item for a review names its pull request.
pub proof fn accepted_items_are_sound(value: Json)
    requires
        emission_of(value) is Ok,
    ensures
        value is List,
        emission_of(value)->Ok_0.len() == value->List_0.len(),
        forall|i: int|
            0 <= i < value->List_0.len() ==> described(value->List_0[i]) == Some(
                #[trigger] emission_of(value)->Ok_0[i],
            ) && emission_of(value)->Ok_0[i].valid(),
{
    let values = value->List_0;
    lemma_items_in(values);
    lemma_first_invalid(items_in(values));
}

/// One value that describes no item, or one item for a review that names no pull
/// request, refuses the emission, whatever stands beside it.
pub proof fn one_bad_item_refuses_all(values: Seq<Json>, i: int)
    requires
        0 <= i < values.len(),
        described(values[i]) matches Some(item) ==> !item.valid(),
    ensures
        emission_of(Json::List(values)) is Err,
{
    if emission_of(Json::List(values)) is Ok {
        accepted_items_are_sound(Json::List(values));
        assert(emission_of(Json::List(values))->Ok_0[i].valid());
    }
}

proof fn lemma_items_in(values: Seq<Json>)
    ensures
        items_in(values).len() <= values.len(),
        forall|i: int|
            0 <= i < items_in(values).len() ==> described(values[i]) == Some(
                #[trigger] items_in(values)[i],
            ),
        items_in(values).len() < values.len() ==> described(values[items_in(values).len() as int])
            is None,
    decreases values.len(),
{
    if values.len() > 0 {
        let rest = values.skip(1);
        lemma_items_in(rest);
        match described(values[0]) {
            Some(item) => {
                assert forall|i: int| 0 <= i < items_in(values).len() implies described(values[i])
                    == Some(#[trigger] items_in(values)[i]) by {
                    if i > 0 {
                        assert(items_in(values)[i] == items_in(rest)[i - 1]);
                        assert(values[i] == rest[i - 1]);
                    }
                }
                if items_in(values).len() < values.len() {
                    assert(values[items_in(values).len() as int] == rest[items_in(rest).len() as int]);
                }
            },
            None => {},
        }
    }
}

proof fn lemma_items_in_take(values: Seq<Json>, n: int)
    requires
        0 <= n <= values.len(),
        forall|i: int| 0 <= i < n ==> described(#[trigger] values[i]) is Some,
    ensures
        items_in(values) == Seq::new(n as nat, |i: int| described(values[i])->0) + items_in(
            values.skip(n),
        ),
    decreases n,
{
    if n == 0 {
        assert(values.skip(0) =~= values);
        assert(Seq::new(0, |i: int| described(values[i])->0) + items_in(values) =~= items_in(
            values,
        ));
    } else {
        lemma_items_in_take(values, n - 1);
        let rest = values.skip(n - 1);
        assert(rest[0] == values[n - 1]);
        assert(rest.skip(1) =~= values.skip(n));
        assert(Seq::new((n - 1) as nat, |i: int| described(values[i])->0) + (seq![
            described(values[n - 1])->0,
        ] + items_in(values.skip(n))) =~= Seq::new(n as nat, |i: int| described(values[i])->0)
            + items_in(values.skip(n)));
    }
}

proof fn lemma_first_invalid(items: Seq<FeedItemView>)
    ensures
        first_invalid(items) is None <==> (forall|i: int|
            0 <= i < items.len() ==> (#[trigger] items[i]).valid()),
    decreases items.len(),
{
    if items.len() > 0 && items[0].valid() {
        let rest = items.skip(1);
        lemma_first_invalid(rest);
        if first_invalid(items) is None {
            assert forall|i: int| 0 <= i < items.len() implies (#[trigger] items[i]).valid() by {
                if i > 0 {
                    assert(items[i] == rest[i - 1]);
                }
            }
        } else {
            let i = choose|i: int| 0 <= i < rest.len() && !(#[trigger] rest[i]).valid();
            assert(items[i + 1] == rest[i]);
        }
    }
}

fn read_needed_text(v: &serde_json::Value, key: &str) -> (r: Option<String>)
    requires
        json::json_content(*v) is Object,
    ensures
        match (r, needed_text(json::json_content(*v)->Object_0, key@)) {
            (Some(s), Some(t)) => s@ == t,
            (None, None) => true,
            _ => false,
        },
{
    match json::member(v, key) {
        Some(m) => match json::as_text(&m) {
            Some(s) => Some(s.to_owned()),
            None => None,
        },
        None => None,
    }
}

fn read_text_if_any(v: &serde_json::Value, key: &str) -> (r: Option<String>)
    requires
        json::json_content(*v) is Object,
    ensures
        match (r, text_if_any(json::json_content(*v)->Object_0, key@)) {
            (Some(s), Some(t)) => s@ == t,
            (None, None) => true,
            _ => false,
        },
{
    match json::member(v, key) {
        Some(m) => match json::as_text(&m) {
            Some(s) => Some(s.to_owned()),
            None => None,
        },
        None => Some(String::new()),
    }
}

fn read_word_if_any(v: &serde_json::Value, key: &str) -> (r: Option<Option<String>>)
    requires
        json::json_content(*v) is Object,
    ensures
        match (r, word_if_any(json::json_content(*v)->Object_0, key@)) {
            (Some(None), Some(None)) => true,
            (Some(Some(s)), Some(Some(t))) => s@ == t,
            (None, None) => true,
            _ => false,
        },
{
    match json::member(v, key) {
        Some(m) => if json::is_null(&m) {
            Some(None)
        } else {
            match json::as_text(&m) {
                Some(s) => Some(Some(s.to_owned())),
                None => None,
            }
        },
        None => Some(None),
    }
}

fn read_number_if_any(v: &serde_json::Value, key: &str) -> (r: Option<Option<i64>>)
    requires
        json::json_content(*v) is Object,
    ensures
        r == number_if_any(json::json_content(*v)->Object_0, key@),
{
    match json::member(v, key) {
        Some(m) => if json::is_null(&m) {
            Some(None)
        } else {
            match json::as_int(&m) {
                Some(n) => Some(Some(n)),
                None => None,
            }
        },
        None => Some(None),
    }
}

fn read_texts(values: &Vec<serde_json::Value>) -> (r: Option<Vec<String>>)
    ensures
        match (r, all_texts(values@.map_values(|e: serde_json::Value| json::json_content(e)))) {
            (Some(v), Some(ts)) => text::texts(v@) == ts,
            (None, None) => true,
            _ => false,
        },
{
    let ghost all = values@.map_values(|e: serde_json::Value| json::json_content(e));
    let mut r: Vec<String> = Vec::new();
    let mut i: usize = 0;
    proof {
        assert(all.take(0) =~= Seq::empty());
        assert(text::texts(r@) =~= Seq::empty());
    }
    while i < values.len()
        invariant
            i <= values.len(),
            all == values@.map_values(|e: serde_json::Value| json::json_content(e)),
            all_texts(all.take(i as int)) == Some(text::texts(r@)),
        decreases values.len() - i,
    {
        proof {
            assert(all.take(i + 1).drop_last() =~= all.take(i as int));
            assert(all.take(i + 1).last() == json::json_content(values@[i as int]));
        }
        match json::as_text(&values[i]) {
            Some(s) => {
                let s: String = s.to_owned();
                proof {
                    text::lemma_texts_push(r@, s);
                }
                r.push(s);
            },
            None => {
                proof {
                    lemma_all_texts_stuck(all, i + 1);
                }
                return None;
            },
        }
        i += 1;
    }
    assert(all.take(i as int) =~= all);
    Some(r)
}

proof fn lemma_all_texts_stuck(items: Seq<Json>, n: int)
    requires
        0 <= n <= items.len(),
        all_texts(items.take(n)) is None,
    ensures
        all_texts(items) is None,
    decreases items.len() - n,
{
    if n == items.len() {
        assert(items.take(n) =~= items);
    } else {
        assert(items.take(n + 1).drop_last() =~= items.take(n));
        lemma_all_texts_stuck(items, n + 1);
    }
}

fn read_texts_if_any(v: &serde_json::Value, key: &str) -> (r: Option<Vec<String>>)
    requires
        json::json_content(*v) is Object,
    ensures
        match (r, texts_if_any(json::json_content(*v)->Object_0, key@)) {
            (Some(s), Some(t)) => text::texts(s@) == t,
            (None, None) => true,
            _ => false,
        },
{
    match json::member(v, key) {
        Some(m) => match json::as_list(&m) {
            Some(values) => read_texts(values),
            None => None,
        },
        None => {
            let r: Vec<String> = Vec::new();
            assert(text::texts(r@) =~= Seq::empty());
            Some(r)
        },
    }
}

fn read_signals(words: &Vec<String>) -> (r: Vec<Signal>)
    ensures
        r@ == known_signals(text::texts(words@)),
{
    let ghost all = text::texts(words@);
    let mut r: Vec<Signal> = Vec::new();
    let mut i: usize = 0;
    assert(all.take(0) =~= Seq::empty());
    while i < words.len()
        invariant
            i <= words.len(),
            all == text::texts(words@),
            r@ == known_signals(all.take(i as int)),
        decreases words.len() - i,
    {
        proof {
            assert(all.take(i + 1).drop_last() =~= all.take(i as int));
            assert(all.take(i + 1).last() == words@[i as int]@);
        }
        match Signal::parse(words[i].as_str()) {
            Some(signal) => r.push(signal),
            None => {},
        }
        i += 1;
    }
    assert(all.take(i as int) =~= all);
    r
}

fn read_item(v: &serde_json::Value) -> (r: Option<FeedItem>)
    ensures
        match (r, described(json::json_content(*v))) {
            (Some(item), Some(view)) => item@ == view,
            (None, None) => true,
            _ => false,
        },
{
    if !json::is_object(v) {
        return None;
    }
    let external_id: String = match read_needed_text(v, "external_id") {
        Some(s) => s,
        None => return None,
    };
    let title: String = match read_needed_text(v, "title") {
        Some(s) => s,
        None => return None,
    };
    let description: String = match read_needed_text(v, "description") {
        Some(s) => s,
        None => return None,
    };
    let url: String = match read_text_if_any(v, "url") {
        Some(s) => s,
        None => return None,
    };
    let url_type: Option<UrlType> = match read_word_if_any(v, "url_type") {
        Some(Some(word)) => match UrlType::parse(word.as_str()) {
            Some(url_type) => Some(url_type),
            None => return None,
        },
        Some(None) => None,
        None => return None,
    };
    let status: TaskStatus = match read_needed_text(v, "status") {
        Some(word) => match TaskStatus::parse(word.as_str()) {
            Some(status) => status,
            None => return None,
        },
        None => return None,
    };
    let tag: TaskTag = match read_needed_text(v, "tag") {
        Some(word) => match TaskTag::parse(word.as_str()) {
            Some(tag) => tag,
            None => return None,
        },
        None => return None,
    };
    let labels: Vec<String> = match read_texts_if_any(v, "labels") {
        Some(labels) => labels,
        None => return None,
    };
    let sort_order: Option<i64> = match read_number_if_any(v, "sort_order") {
        Some(n) => n,
        None => return None,
    };
    let signals: Vec<Signal> = match read_texts_if_any(v, "signals") {
        Some(words) => read_signals(&words),
        None => return None,
    };
    let wrap_up_mode: Option<WrapUpMode> = match read_word_if_any(v, "wrap_up_mode") {
        Some(Some(word)) => match WrapUpMode::parse(word.as_str()) {
            Some(mode) => Some(mode),
            None => return None,
        },
        Some(None) => None,
        None => return None,
    };
    Some(
        FeedItem {
            external_id,
            title,
            description,
            url,
            url_type,
            status,
            tag,
            labels,
            sort_order,
            signals,
            wrap_up_mode,
        },
    )
}

/// The items, or why they are refused: each has to be one that a feed may emit.
pub fn accept_items(items: Vec<FeedItem>) -> (r: Result<Vec<FeedItem>, FeedParseError>)
    ensures
        match (r, first_invalid(entries::item_views(items@))) {
            (Ok(accepted), None) => accepted == items,
            (Err(e), Some(item)) => e@ == (FeedParseErrorView::NoPullRequest {
                external_id: item.external_id,
                tag: item.tag,
            }),
            _ => false,
        },
{
    let ghost views = entries::item_views(items@);
    let mut k: usize = 0;
    assert(views.skip(0) =~= views);
    while k < items.len()
        invariant
            k <= items.len(),
            views == entries::item_views(items@),
            first_invalid(views) == first_invalid(views.skip(k as int)),
        decreases items.len() - k,
    {
        proof {
            assert(views.skip(k as int)[0] == items@[k as int]@);
            assert(views.skip(k as int).skip(1) =~= views.skip(k + 1));
        }
        if !items[k].validate() {
            return Err(
                FeedParseError::NoPullRequest {
                    external_id: items[k].external_id.clone(),
                    tag: items[k].tag,
                },
            );
        }
        k += 1;
    }
    Ok(items)
}

/// The items that JSON values describe, or why they are refused.
fn read_items(values: &Vec<serde_json::Value>) -> (r: Result<Vec<FeedItem>, FeedParseError>)
    ensures
        match (
            r,
            emission_of(
                Json::List(values@.map_values(|e: serde_json::Value| json::json_content(e))),
            ),
        ) {
            (Ok(items), Ok(views)) => entries::item_views(items@) == views,
            (Err(e), Err(view)) => e@ == view,
            _ => false,
        },
{
    let ghost all = values@.map_values(|e: serde_json::Value| json::json_content(e));
    let mut items: Vec<FeedItem> = Vec::new();
    let mut i: usize = 0;
    while i < values.len()
        invariant
            i <= values.len(),
            all == values@.map_values(|e: serde_json::Value| json::json_content(e)),
            items@.len() == i,
            forall|j: int| 0 <= j < i ==> described(all[j]) == Some((#[trigger] items@[j])@),
        decreases values.len() - i,
    {
        assert(all[i as int] == json::json_content(values@[i as int]));
        match read_item(&values[i]) {
            Some(item) => items.push(item),
            None => {
                proof {
                    assert forall|j: int| 0 <= j < i implies described(#[trigger] all[j])
                        is Some by {
                        assert(described(all[j]) == Some(items@[j]@));
                    }
                    lemma_items_in_take(all, i as int);
                    assert(all.skip(i as int)[0] == all[i as int]);
                }
                return Err(FeedParseError::BadItem(i));
            },
        }
        i += 1;
    }
    let ghost views = entries::item_views(items@);
    proof {
        assert forall|j: int| 0 <= j < all.len() implies described(#[trigger] all[j]) is Some by {
            assert(described(all[j]) == Some(items@[j]@));
        }
        lemma_items_in_take(all, all.len() as int);
        assert(all.skip(all.len() as int) =~= Seq::empty());
        assert(items_in(all) =~= views);
    }
    accept_items(items)
}

/// The items that a feed command wrote, or why its emission is refused.
pub fn parse_feed_items(bytes: &[u8]) -> (r: Result<Vec<FeedItem>, FeedParseError>)
    ensures
        match (r, emission(bytes@)) {
            (Ok(items), Ok(views)) => entries::item_views(items@) == views,
            (Err(e), Err(view)) => e@ == view,
            _ => false,
        },
{
    match json::parse_json_bytes(bytes) {
        Ok(value) => match json::as_list(&value) {
            Some(values) => read_items(values),
            None => Err(FeedParseError::NoList),
        },
        Err(e) => Err(FeedParseError::Malformed(json::complaint(&e))),
    }
}

/// Does the object hold this text under the key?
pub open spec fn holds_text(members: Map<Seq<char>, Json>, key: Seq<char>, s: Seq<char>) -> bool {
    members.dom().contains(key) && members[key] == Json::Text(s)
}

/// Is the member left out, or null?
pub open spec fn is_unsaid(members: Map<Seq<char>, Json>, key: Seq<char>) -> bool {
    !members.dom().contains(key) || members[key] is Null
}

/// Does the object hold a list of these texts under the key, or nothing and there are
/// none?
pub open spec fn holds_texts(
    members: Map<Seq<char>, Json>,
    key: Seq<char>,
    texts: Seq<Seq<char>>,
) -> bool {
    if members.dom().contains(key) {
        members[key] matches Json::List(items) && items.len() == texts.len() && forall|i: int|
            0 <= i < items.len() ==> #[trigger] items[i] == Json::Text(texts[i])
    } else {
        texts.len() == 0
    }
}

proof fn lemma_all_texts(items: Seq<Json>)
    ensures
        match all_texts(items) {
            Some(texts) => items.len() == texts.len() && forall|i: int|
                0 <= i < items.len() ==> #[trigger] items[i] == Json::Text(texts[i]),
            None => exists|i: int| 0 <= i < items.len() && !(#[trigger] items[i] is Text),
        },
    decreases items.len(),
{
    if items.len() > 0 {
        let before = items.drop_last();
        lemma_all_texts(before);
        let last = items[items.len() - 1];
        match all_texts(items) {
            Some(texts) => {
                let earlier = all_texts(before)->0;
                assert forall|i: int| 0 <= i < items.len() implies #[trigger] items[i]
                    == Json::Text(texts[i]) by {
                    if i < before.len() {
                        assert(before[i] == items[i]);
                    }
                }
            },
            None => {
                if all_texts(before) is None {
                    let i = choose|i: int| 0 <= i < before.len() && !(#[trigger] before[i] is Text);
                    assert(!(items[i] is Text));
                } else {
                    assert(!(items[items.len() - 1] is Text));
                }
            },
        }
    }
}

proof fn lemma_texts_if_any(members: Map<Seq<char>, Json>, key: Seq<char>, texts: Seq<Seq<char>>)
    ensures
        texts_if_any(members, key) == Some(texts) <==> holds_texts(members, key, texts),
{
    if members.dom().contains(key) {
        match members[key] {
            Json::List(items) => {
                lemma_all_texts(items);
                match all_texts(items) {
                    Some(found) => {
                        if holds_texts(members, key, texts) {
                            assert forall|i: int| 0 <= i < texts.len() implies found[i]
                                == texts[i] by {
                                assert(items[i] == Json::Text(texts[i]));
                            }
                            assert(found =~= texts);
                        }
                    },
                    None => {
                        if holds_texts(members, key, texts) {
                            let i = choose|i: int|
                                0 <= i < items.len() && !(#[trigger] items[i] is Text);
                            assert(items[i] == Json::Text(texts[i]));
                        }
                    },
                }
            },
            _ => {},
        }
    } else if texts.len() == 0 {
        assert(texts =~= Seq::empty());
    }
}

/// An item says what its members say: the text under each key, the status, the tag, the
/// url type and the wrap-up mode that the words under theirs name, the number and the
/// labels; what may be left out is empty where it is. A value that is not so describes no
/// item, and one that is so describes this one.
pub proof fn an_item_is_what_its_members_say(members: Map<Seq<char>, Json>, item: FeedItemView)
    ensures
        described(Json::Object(members)) == Some(item) <==> {
            &&& holds_text(members, "external_id"@, item.external_id)
            &&& holds_text(members, "title"@, item.title)
            &&& holds_text(members, "description"@, item.description)
            &&& holds_text(members, "url"@, item.url) || (!members.dom().contains("url"@)
                && item.url.len() == 0)
            &&& members.dom().contains("status"@) && (members["status"@] matches Json::Text(word)
                && TaskStatus::named(word) == Some(item.status))
            &&& members.dom().contains("tag"@) && (members["tag"@] matches Json::Text(word)
                && TaskTag::named(word) == Some(item.tag))
            &&& if is_unsaid(members, "url_type"@) {
                item.url_type is None
            } else {
                item.url_type is Some && (members["url_type"@] matches Json::Text(word)
                    && UrlType::named(word) == item.url_type)
            }
            &&& if is_unsaid(members, "wrap_up_mode"@) {
                item.wrap_up_mode is None
            } else {
                item.wrap_up_mode is Some && (members["wrap_up_mode"@] matches Json::Text(word)
                    && WrapUpMode::named(word) == item.wrap_up_mode)
            }
            &&& if is_unsaid(members, "sort_order"@) {
                item.sort_order is None
            } else {
                item.sort_order matches Some(n) && members["sort_order"@] == Json::Number(
                    Some(n as int),
                )
            }
            &&& holds_texts(members, "labels"@, item.labels)
            &&& exists|words: Seq<Seq<char>>| #[trigger]
                holds_texts(members, "signals"@, words) && item.signals == known_signals(words)
        },
{
    lemma_texts_if_any(members, "labels"@, item.labels);
    match texts_if_any(members, "signals"@) {
        Some(words) => {
            lemma_texts_if_any(members, "signals"@, words);
        },
        None => {},
    }
    assert forall|words: Seq<Seq<char>>| #[trigger]
        holds_texts(members, "signals"@, words) implies texts_if_any(members, "signals"@)
        == Some(words) by {
        lemma_texts_if_any(members, "signals"@, words);
    }
    if item.url.len() == 0 {
        assert(item.url =~= Seq::empty());
    }
    match described(Json::Object(members)) {
        Some(found) => {
            lemma_texts_if_any(members, "labels"@, found.labels);
        },
        None => {},
    }
}

/// Nothing but an object describes an item.
pub proof fn only_an_object_is_an_item(value: Json)
    ensures
        !(value is Object) ==> described(value) is None,
        !(value is List) ==> emission_of(value) is Err,
{
}

/// A word that names a signal adds that signal behind the others, and one that names none
/// adds nothing: no signal is lost, and none is made up.
pub proof fn every_known_signal_is_taken(words: Seq<Seq<char>>, more: Seq<char>)
    ensures
        Signal::named(more) matches Some(signal) ==> known_signals(words.push(more))
            == known_signals(words).push(signal),
        Signal::named(more) is None ==> known_signals(words.push(more)) == known_signals(words),
        known_signals(Seq::<Seq<char>>::empty()) == Seq::<Signal>::empty(),
{
    assert(words.push(more).drop_last() =~= words);
}

/// A list whose every value describes an item, each for a review with its pull request, is
/// accepted with all of them; a refusal names the first value that describes none, or else
/// the first item that names no pull request.
pub proof fn a_refusal_names_the_first_fault(values: Seq<Json>)
    ensures
        (forall|i: int|
            0 <= i < values.len() ==> (described(#[trigger] values[i]) matches Some(item)
                && item.valid())) ==> emission_of(Json::List(values)) is Ok,
        emission_of(Json::List(values)) matches Err(FeedParseErrorView::BadItem(i)) ==> 0 <= i
            < values.len() && described(values[i]) is None && forall|j: int|
            0 <= j < i ==> described(#[trigger] values[j]) is Some,
        emission_of(Json::List(values)) matches Err(
            FeedParseErrorView::NoPullRequest { external_id, tag },
        ) ==> exists|i: int|
            0 <= i < values.len() && (described(#[trigger] values[i]) matches Some(item)
                && !item.valid() && item.external_id == external_id && item.tag == tag),
        !(emission_of(Json::List(values)) matches Err(FeedParseErrorView::NoList)),
        !(emission_of(Json::List(values)) matches Err(FeedParseErrorView::Malformed(_))),
{
    lemma_items_in(values);
    let items = items_in(values);
    lemma_first_invalid(items);
    if forall|i: int|
        0 <= i < values.len() ==> (described(#[trigger] values[i]) matches Some(item)
            && item.valid()) {
        assert(items.len() == values.len()) by {
            if items.len() < values.len() {
                assert(described(values[items.len() as int]) is Some);
            }
        }
        assert forall|i: int| 0 <= i < items.len() implies (#[trigger] items[i]).valid() by {
            assert(described(values[i]) == Some(items[i]));
        }
    }
    assert forall|j: int| 0 <= j < items.len() implies described(#[trigger] values[j]) is Some by {
        assert(described(values[j]) == Some(items[j]));
    }
    if items.len() == values.len() && first_invalid(items) is Some {
        lemma_invalid_is_among(items);
        let i = choose|i: int|
            0 <= i < items.len() && #[trigger] items[i] == first_invalid(items)->0;
        assert(described(values[i]) == Some(items[i]));
    }
}

proof fn lemma_invalid_is_among(items: Seq<FeedItemView>)
    requires
        first_invalid(items) is Some,
    ensures
        exists|i: int| 0 <= i < items.len() && #[trigger] items[i] == first_invalid(items)->0,
        !first_invalid(items)->0.valid(),
    decreases items.len(),
{
    if items[0].valid() {
        let rest = items.skip(1);
        lemma_invalid_is_among(rest);
        let i = choose|i: int| 0 <= i < rest.len() && #[trigger] rest[i] == first_invalid(rest)->0;
        assert(items[i + 1] == rest[i]);
    } else {
        assert(items[0] == first_invalid(items)->0);
    }
}

/// What is said of an emission that is none, word for word.
pub proof fn a_bad_emission_is_told_in_these_words(
    why: Seq<char>,
    i: int,
    external_id: Seq<char>,
    tag: TaskTag,
)
    ensures
        FeedParseErrorView::Malformed(why).message() == why,
        FeedParseErrorView::NoList.message() == "the output is no JSON list of items"@,
        FeedParseErrorView::BadItem(i).message() == "item "@ + text::decimal(i)
            + " is no feed item"@,
        (FeedParseErrorView::NoPullRequest { external_id, tag }).message() == "item "@ + external_id
            + " is tagged "@ + tag.word() + " and names no pull request"@,
{
}

} // verus!

//! Feed items on their way into the board.

use vstd::prelude::*;

use crate::models::{FeedItem, FeedItemView, Signal};
use crate::text;

verus! {

/// May a sync act on what its emission leaves out?
#[derive(Clone, Copy, Debug, PartialEq, Eq, Structural)]
pub enum SyncMode {
    /// The emission says all there is: a feed task that it leaves out is gone.
    Reconcile,
    /// The emission says only what it says: tasks are made, refreshed and moved,
    /// and none is removed.
    Additive,
}

impl SyncMode {
    /// May feed tasks that the emission leaves out be removed?
    pub fn removes_absent(self) -> (r: bool)
        ensures
            r == (self == SyncMode::Reconcile),
    {
        self == SyncMode::Reconcile
    }
}

/// A feed item with the checkout and the base branch of its repository.
#[derive(Clone, Debug)]
pub struct FeedItemWithTarget {
    pub item: FeedItem,
    pub repo_path: String,
    pub base_branch: String,
}

/// [`FeedItemWithTarget`] as values.
#[verifier::ext_equal]
pub struct EntryView {
    pub item: FeedItemView,
    pub repo_path: Seq<char>,
    pub base_branch: Seq<char>,
}

impl View for FeedItemWithTarget {
    type V = EntryView;

    open spec fn view(&self) -> EntryView {
        EntryView {
            item: self.item@,
            repo_path: self.repo_path@,
            base_branch: self.base_branch@,
        }
    }
}

/// The entries as values.
pub open spec fn entry_views(entries: Seq<FeedItemWithTarget>) -> Seq<EntryView> {
    entries.map_values(|e: FeedItemWithTarget| e@)
}

/// Strings of its own with the same texts.
pub(crate) fn copied_texts(v: &Vec<String>) -> (r: Vec<String>)
    ensures
        text::texts(r@) == text::texts(v@),
{
    let mut r: Vec<String> = Vec::new();
    let mut i: usize = 0;
    while i < v.len()
        invariant
            i <= v.len(),
            r@.len() == i,
            forall|j: int| 0 <= j < i ==> (#[trigger] r@[j])@ == v@[j]@,
        decreases v.len() - i,
    {
        r.push(v[i].clone());
        i += 1;
    }
    assert(text::texts(r@) =~= text::texts(v@));
    r
}

fn copied_signals(v: &Vec<Signal>) -> (r: Vec<Signal>)
    ensures
        r@ == v@,
{
    let mut r: Vec<Signal> = Vec::new();
    let mut i: usize = 0;
    while i < v.len()
        invariant
            i <= v.len(),
            r@ == v@.take(i as int),
        decreases v.len() - i,
    {
        r.push(v[i]);
        i += 1;
        assert(v@.take(i as int) =~= v@.take(i - 1).push(v@[i - 1]));
    }
    assert(v@.take(i as int) =~= v@);
    r
}

impl FeedItem {
    /// The same item once more.
    pub fn copied(&self) -> (r: FeedItem)
        ensures
            r@ == self@,
    {
        FeedItem {
            external_id: self.external_id.clone(),
            title: self.title.clone(),
            description: self.description.clone(),
            url: self.url.clone(),
            url_type: self.url_type,
            status: self.status,
            tag: self.tag,
            labels: copied_texts(&self.labels),
            sort_order: self.sort_order,
            signals: copied_signals(&self.signals),
            wrap_up_mode: self.wrap_up_mode,
        }
    }
}

/// The shortest of three lengths.
pub open spec fn shortest(a: nat, b: nat, c: nat) -> nat {
    if a <= b && a <= c {
        a
    } else if b <= c {
        b
    } else {
        c
    }
}

/// The items as values.
pub open spec fn item_views(items: Seq<FeedItem>) -> Seq<FeedItemView> {
    items.map_values(|i: FeedItem| i@)
}

/// Each item with the path and the branch at its own index, as far as all three
/// go.
pub open spec fn zipped(
    items: Seq<FeedItemView>,
    repo_paths: Seq<Seq<char>>,
    base_branches: Seq<Seq<char>>,
) -> Seq<EntryView> {
    Seq::new(
        shortest(items.len(), repo_paths.len(), base_branches.len()),
        |i: int|
            EntryView { item: items[i], repo_path: repo_paths[i], base_branch: base_branches[i] },
    )
}

/// The items of the entries.
pub open spec fn items_of(entries: Seq<EntryView>) -> Seq<FeedItemView> {
    entries.map_values(|e: EntryView| e.item)
}

/// The paths of the entries.
pub open spec fn paths_of(entries: Seq<EntryView>) -> Seq<Seq<char>> {
    entries.map_values(|e: EntryView| e.repo_path)
}

/// The branches of the entries.
pub open spec fn branches_of(entries: Seq<EntryView>) -> Seq<Seq<char>> {
    entries.map_values(|e: EntryView| e.base_branch)
}

/// With a path and a branch for each item, pairing them up and taking them apart
/// again gives back all three lists.
pub proof fn pairing_loses_nothing(
    items: Seq<FeedItemView>,
    repo_paths: Seq<Seq<char>>,
    base_branches: Seq<Seq<char>>,
)
    requires
        repo_paths.len() == items.len(),
        base_branches.len() == items.len(),
    ensures
        items_of(zipped(items, repo_paths, base_branches)) == items,
        paths_of(zipped(items, repo_paths, base_branches)) == repo_paths,
        branches_of(zipped(items, repo_paths, base_branches)) == base_branches,
{
    let entries = zipped(items, repo_paths, base_branches);
    assert(items_of(entries) =~= items);
    assert(paths_of(entries) =~= repo_paths);
    assert(branches_of(entries) =~= base_branches);
}

impl FeedItemWithTarget {
    /// The same entry once more.
    pub fn copied(&self) -> (r: FeedItemWithTarget)
        ensures
            r@ == self@,
    {
        FeedItemWithTarget {
            item: self.item.copied(),
            repo_path: self.repo_path.clone(),
            base_branch: self.base_branch.clone(),
        }
    }

    /// Each item with the path and the branch at its own index, as far as all
    /// three go.
    pub fn zip(items: Vec<FeedItem>, repo_paths: Vec<String>, base_branches: Vec<String>) -> (r: Vec<
        FeedItemWithTarget,
    >)
        ensures
            entry_views(r@) == zipped(
                item_views(items@),
                text::texts(repo_paths@),
                text::texts(base_branches@),
            ),
    {
        let mut r: Vec<FeedItemWithTarget> = Vec::new();
        let mut i: usize = 0;
        while i < items.len() && i < repo_paths.len() && i < base_branches.len()
            invariant
                i <= shortest(items@.len(), repo_paths@.len(), base_branches@.len()),
                r@.len() == i,
                forall|j: int|
                    0 <= j < i ==> (#[trigger] r@[j])@ == (EntryView {
                        item: items@[j]@,
                        repo_path: repo_paths@[j]@,
                        base_branch: base_branches@[j]@,
                    }),
            decreases items.len() - i,
        {
            r.push(
                FeedItemWithTarget {
                    item: items[i].copied(),
                    repo_path: repo_paths[i].clone(),
                    base_branch: base_branches[i].clone(),
                },
            );
            i += 1;
        }
        assert(entry_views(r@) =~= zipped(
            item_views(items@),
            text::texts(repo_paths@),
            text::texts(base_branches@),
        ));
        r
    }

    /// The items, the paths and the branches of the entries, each at its entry's
    /// index.
    pub fn unzip(entries: &Vec<FeedItemWithTarget>) -> (r: (Vec<FeedItem>, Vec<String>, Vec<String>))
        ensures
            item_views(r.0@) == items_of(entry_views(entries@)),
            text::texts(r.1@) == paths_of(entry_views(entries@)),
            text::texts(r.2@) == branches_of(entry_views(entries@)),
    {
        let mut items: Vec<FeedItem> = Vec::new();
        let mut repo_paths: Vec<String> = Vec::new();
        let mut base_branches: Vec<String> = Vec::new();
        let mut i: usize = 0;
        while i < entries.len()
            invariant
                i <= entries.len(),
                items@.len() == i,
                repo_paths@.len() == i,
                base_branches@.len() == i,
                forall|j: int| 0 <= j < i ==> (#[trigger] items@[j])@ == entries@[j].item@,
                forall|j: int| 0 <= j < i ==> (#[trigger] repo_paths@[j])@ == entries@[j].repo_path@,
                forall|j: int|
                    0 <= j < i ==> (#[trigger] base_branches@[j])@ == entries@[j].base_branch@,
            decreases entries.len() - i,
        {
            items.push(entries[i].item.copied());
            repo_paths.push(entries[i].repo_path.clone());
            base_branches.push(entries[i].base_branch.clone());
            i += 1;
        }
        let ghost views = entry_views(entries@);
        assert(item_views(items@) =~= items_of(views));
        assert(text::texts(repo_paths@) =~= paths_of(views));
        assert(text::texts(base_branches@) =~= branches_of(views));
        (items, repo_paths, base_branches)
    }
}

/// Each entry is made of what stands at its own index, and there are as many as the
/// shortest list has.
pub proof fn entries_are_paired_by_index(
    items: Seq<FeedItemView>,
    repo_paths: Seq<Seq<char>>,
    base_branches: Seq<Seq<char>>,
    i: int,
)
    ensures
        0 <= i < zipped(items, repo_paths, base_branches).len() <==> 0 <= i < items.len() && i
            < repo_paths.len() && i < base_branches.len(),
        0 <= i < zipped(items, repo_paths, base_branches).len() ==> {
            let entry = zipped(items, repo_paths, base_branches)[i];
            entry.item == items[i] && entry.repo_path == repo_paths[i] && entry.base_branch
                == base_branches[i]
        },
{
}

/// As many entries are paired as the shortest of the three lists has.
pub proof fn the_shortest_list_ends_the_pairing(a: nat, b: nat, c: nat)
    ensures
        shortest(a, b, c) <= a,
        shortest(a, b, c) <= b,
        shortest(a, b, c) <= c,
        shortest(a, b, c) == a || shortest(a, b, c) == b || shortest(a, b, c) == c,
{
}

} // verus!

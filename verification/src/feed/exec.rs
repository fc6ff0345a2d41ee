//! The base branches of the repositories that a feed speaks of.

use vstd::prelude::*;

use crate::git;
use crate::process::{Reply, ReplyView};
use crate::text;

verus! {

/// The paths that have to be asked about: each that is not empty, once, in the
/// order in which they first come.
pub open spec fn to_ask(paths: Seq<Seq<char>>) -> Seq<Seq<char>>
    decreases paths.len(),
{
    if paths.len() == 0 {
        Seq::empty()
    } else {
        let before = to_ask(paths.drop_last());
        if paths.last().len() == 0 || before.contains(paths.last()) {
            before
        } else {
            before.push(paths.last())
        }
    }
}

/// Where `path` is among `paths`, if it is there.
fn position(paths: &Vec<String>, path: &str) -> (r: Option<usize>)
    ensures
        match r {
            Some(i) => i < paths.len() && paths@[i as int]@ == path@,
            None => !text::texts(paths@).contains(path@),
        },
{
    let mut i: usize = 0;
    while i < paths.len()
        invariant
            i <= paths.len(),
            forall|j: int| 0 <= j < i ==> (#[trigger] paths@[j])@ != path@,
        decreases paths.len() - i,
    {
        if text::same(paths[i].as_str(), path) {
            return Some(i);
        }
        i += 1;
    }
    assert forall|j: int| 0 <= j < text::texts(paths@).len() implies text::texts(paths@)[j]
        != path@ by {
        assert(text::texts(paths@)[j] == paths@[j]@);
    }
    None
}

/// The paths that have to be asked about.
pub fn paths_to_ask(repo_paths: &Vec<String>) -> (r: Vec<String>)
    ensures
        text::texts(r@) == to_ask(text::texts(repo_paths@)),
{
    let mut r: Vec<String> = Vec::new();
    let mut i: usize = 0;
    let ghost all = text::texts(repo_paths@);
    assert(text::texts(r@) =~= to_ask(all.take(0)));
    while i < repo_paths.len()
        invariant
            i <= repo_paths.len(),
            all == text::texts(repo_paths@),
            text::texts(r@) == to_ask(all.take(i as int)),
        decreases repo_paths.len() - i,
    {
        let path = repo_paths[i].as_str();
        proof {
            assert(all.take(i + 1).drop_last() =~= all.take(i as int));
            assert(all.take(i + 1).last() == path@);
        }
        if !path.is_empty() {
            match position(&r, path) {
                Some(j) => {
                    assert(text::texts(r@)[j as int] == path@);
                },
                None => {
                    let path: String = path.to_owned();
                    proof {
                        text::lemma_texts_push(r@, path);
                    }
                    r.push(path);
                },
            }
        }
        i += 1;
    }
    assert(all.take(i as int) =~= all);
    r
}

/// The answers as values.
pub open spec fn replies_of(replies: Seq<Reply>) -> Seq<ReplyView> {
    replies.map_values(|r: Reply| r@)
}

/// The base branch of a repository, by the answers about those that were asked
/// about. An item without a repository is as good as on `main`.
pub open spec fn base_branch(
    path: Seq<char>,
    asked: Seq<Seq<char>>,
    replies: Seq<ReplyView>,
) -> Seq<char> {
    if path.len() == 0 {
        "main"@
    } else {
        git::default_branch(replies[asked.index_of(path)])
    }
}

/// The base branch of each repository, by the answers about those that were asked
/// about.
pub open spec fn base_branches(paths: Seq<Seq<char>>, replies: Seq<ReplyView>) -> Seq<Seq<char>> {
    paths.map_values(|path: Seq<char>| base_branch(path, to_ask(paths), replies))
}

/// No path is asked about twice, the empty one not at all, and every other is.
pub proof fn each_path_is_asked_about_once(paths: Seq<Seq<char>>)
    ensures
        to_ask(paths).no_duplicates(),
        forall|p: Seq<char>| #[trigger] to_ask(paths).contains(p) <==> paths.contains(p) && p.len()
            > 0,
    decreases paths.len(),
{
    if paths.len() > 0 {
        let before = paths.drop_last();
        let last = paths.last();
        each_path_is_asked_about_once(before);
        let asked = to_ask(before);
        assert forall|p: Seq<char>| paths.contains(p) == (before.contains(p) || p == last) by {
            if paths.contains(p) {
                let i = choose|i: int| 0 <= i < paths.len() && paths[i] == p;
                if i < before.len() {
                    assert(before[i] == p);
                }
            }
            if before.contains(p) {
                let i = choose|i: int| 0 <= i < before.len() && before[i] == p;
                assert(paths[i] == p);
            }
            assert(paths[paths.len() - 1] == last);
        }
        if last.len() > 0 && !asked.contains(last) {
            let longer = asked.push(last);
            assert forall|p: Seq<char>| #[trigger] longer.contains(p) == (asked.contains(p) || p
                == last) by {
                if asked.contains(p) {
                    let i = choose|i: int| 0 <= i < asked.len() && asked[i] == p;
                    assert(longer[i] == p);
                }
                assert(longer[asked.len() as int] == last);
                if longer.contains(p) && p != last {
                    let i = choose|i: int| 0 <= i < longer.len() && longer[i] == p;
                    assert(asked[i] == p);
                }
            }
        }
    }
}

/// The base branch of each repository, from what came of asking about those that
/// [`paths_to_ask`] names, in its order.
pub fn resolve_base_branches(repo_paths: &Vec<String>, replies: &Vec<Reply>) -> (r: Vec<String>)
    requires
        replies@.len() >= to_ask(text::texts(repo_paths@)).len(),
    ensures
        text::texts(r@) == base_branches(text::texts(repo_paths@), replies_of(replies@)),
{
    let asked: Vec<String> = paths_to_ask(repo_paths);
    let ghost all = text::texts(repo_paths@);
    let ghost names = to_ask(all);
    proof {
        each_path_is_asked_about_once(all);
        assert(names.len() == asked@.len());
    }
    let mut branches: Vec<String> = Vec::new();
    let mut i: usize = 0;
    while i < replies.len()
        invariant
            i <= replies.len(),
            branches@.len() == i,
            forall|j: int|
                0 <= j < i ==> (#[trigger] branches@[j])@ == git::default_branch(
                    replies_of(replies@)[j],
                ),
        decreases replies.len() - i,
    {
        branches.push(git::detect_default_branch(&replies[i]));
        i += 1;
    }
    let mut r: Vec<String> = Vec::new();
    let mut i: usize = 0;
    while i < repo_paths.len()
        invariant
            i <= repo_paths.len(),
            all == text::texts(repo_paths@),
            names == to_ask(all),
            names == text::texts(asked@),
            names.no_duplicates(),
            forall|p: Seq<char>| #[trigger] names.contains(p) <==> all.contains(p) && p.len() > 0,
            branches@.len() >= names.len(),
            forall|j: int|
                0 <= j < branches@.len() ==> (#[trigger] branches@[j])@ == git::default_branch(
                    replies_of(replies@)[j],
                ),
            r@.len() == i,
            forall|j: int|
                0 <= j < i ==> (#[trigger] r@[j])@ == base_branch(
                    repo_paths@[j]@,
                    names,
                    replies_of(replies@),
                ),
        decreases repo_paths.len() - i,
    {
        let path = repo_paths[i].as_str();
        if path.is_empty() {
            r.push("main".to_owned());
        } else {
            match position(&asked, path) {
                Some(j) => {
                    proof {
                        assert(names[j as int] == path@);
                        assert(names.contains(path@));
                        let k = names.index_of(path@);
                        assert(0 <= k < names.len() && names[k] == path@);
                        assert(k == j);
                    }
                    r.push(branches[j].clone());
                },
                None => {
                    proof {
                        assert(all[i as int] == path@);
                        assert(all.contains(path@));
                        assert(names.contains(path@));
                    }
                    r.push(String::new());
                },
            }
        }
        i += 1;
    }
    assert(text::texts(r@) =~= base_branches(all, replies_of(replies@)));
    r
}

/// Every item gets the base branch that was found for its own path: two items with one path
/// get one branch, that of the answer about the path; an item without a path gets `main`.
pub proof fn each_path_gets_its_own_branch(
    paths: Seq<Seq<char>>,
    replies: Seq<ReplyView>,
    i: int,
    k: int,
)
    requires
        0 <= i < paths.len(),
        0 <= k < to_ask(paths).len(),
    ensures
        base_branches(paths, replies).len() == paths.len(),
        paths[i].len() == 0 ==> base_branches(paths, replies)[i] == "main"@,
        paths[i] == to_ask(paths)[k] ==> base_branches(paths, replies)[i] == git::default_branch(
            replies[k],
        ),
        exists|j: int| 0 <= j < paths.len() && #[trigger] paths[j] == to_ask(paths)[k],
{
    each_path_is_asked_about_once(paths);
    let asked = to_ask(paths);
    assert(asked.contains(asked[k]));
    let j = choose|j: int| 0 <= j < paths.len() && paths[j] == asked[k];
    assert(paths[j] == asked[k]);
    if paths[i] == asked[k] {
        let n = asked.index_of(paths[i]);
        assert(0 <= n < asked.len() && asked[n] == paths[i]);
        assert(n == k);
        assert(paths[i].len() > 0);
    }
}

} // verus!

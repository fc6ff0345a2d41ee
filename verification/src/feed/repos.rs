//! Which repository a feed item speaks of.

use vstd::prelude::*;

use crate::feed::entries;
use crate::models::{FeedItem, FeedItemView};
use crate::paths;
use crate::text;

verus! {

/// What a url on the forge starts with.
pub const FORGE: &'static str = "https://github.com/";

/// The group of the items whose url names no repository.
pub const OTHER_GROUP: &'static str = "other";

/// The pieces behind the forge's name, where a url starts with it.
pub open spec fn forge_pieces(url: Seq<char>) -> Seq<Seq<char>> {
    if FORGE@.is_prefix_of(url) {
        text::split_on(url.skip(FORGE@.len() as int), '/')
    } else {
        Seq::empty()
    }
}

/// The owner and the repository that a url names; `None` where it names none.
pub open spec fn repo_of(url: Seq<char>) -> Option<(Seq<char>, Seq<char>)> {
    let pieces = forge_pieces(url);
    if pieces.len() >= 2 && pieces[0].len() > 0 && pieces[1].len() > 0 {
        Some((pieces[0], pieces[1]))
    } else {
        None
    }
}

/// The name of the group that a url's item belongs to: its repository's.
pub open spec fn group_name(url: Seq<char>) -> Seq<char> {
    match repo_of(url) {
        Some((_, repo)) => repo,
        None => OTHER_GROUP@,
    }
}

/// The owner and the repository that a url names.
fn repo_from_url(url: &str) -> (r: Option<(String, String)>)
    ensures
        match (r, repo_of(url@)) {
            (Some((owner, repo)), Some((o, n))) => owner@ == o && repo@ == n,
            (None, None) => true,
            _ => false,
        },
{
    if !text::starts_with(url, FORGE) {
        return None;
    }
    let front: usize = FORGE.unicode_len();
    let rest = url.substring_char(front, url.unicode_len());
    assert(rest@ =~= url@.skip(FORGE@.len() as int));
    let pieces: Vec<String> = text::pieces_of(rest, '/');
    let ghost all = text::split_on(rest@, '/');
    assert(text::texts(pieces@) == all);
    if pieces.len() < 2 {
        return None;
    }
    assert(all[0] == pieces@[0]@ && all[1] == pieces@[1]@);
    if pieces[0].as_str().is_empty() || pieces[1].as_str().is_empty() {
        return None;
    }
    Some((pieces[0].clone(), pieces[1].clone()))
}

/// The name of the group that a url's item belongs to.
pub fn repo_name_from_url(url: &str) -> (r: String)
    ensures
        r@ == group_name(url@),
{
    match repo_from_url(url) {
        Some((_, repo)) => repo,
        None => OTHER_GROUP.to_owned(),
    }
}

/// Is the path's last name the repository's name?
pub open spec fn is_checkout_of(path: Seq<char>, full_name: Seq<char>) -> bool {
    paths::last_name(text::split_on(path, '/')) == Some(text::after_last(full_name, '/'))
}

/// The first path that is a checkout of the repository.
pub open spec fn checkout(full_name: Seq<char>, known: Seq<Seq<char>>) -> Option<Seq<char>>
    decreases known.len(),
{
    if known.len() == 0 {
        None
    } else if is_checkout_of(known[0], full_name) {
        Some(known[0])
    } else {
        checkout(full_name, known.skip(1))
    }
}

/// The checkout of a repository, which is given with its owner, among known paths.
pub fn resolve_repo_path(full_name: &str, known_paths: &[String]) -> (r: Option<String>)
    ensures
        match (r, checkout(full_name@, text::texts(known_paths@))) {
            (Some(s), Some(path)) => s@ == path,
            (None, None) => true,
            _ => false,
        },
{
    let pieces: Vec<String> = text::pieces_of(full_name, '/');
    proof {
        text::lemma_split_on_nonempty(full_name@, '/');
        assert(text::texts(pieces@)[pieces@.len() - 1] == pieces@[pieces@.len() - 1]@);
    }
    let name = pieces[pieces.len() - 1].as_str();
    assert(name@ == text::after_last(full_name@, '/'));
    let ghost all = text::texts(known_paths@);
    let mut i: usize = 0;
    assert(all.skip(0) =~= all);
    while i < known_paths.len()
        invariant
            i <= known_paths.len(),
            all == text::texts(known_paths@),
            name@ == text::after_last(full_name@, '/'),
            checkout(full_name@, all) == checkout(full_name@, all.skip(i as int)),
        decreases known_paths.len() - i,
    {
        proof {
            assert(all.skip(i as int)[0] == known_paths@[i as int]@);
            assert(all.skip(i as int).skip(1) =~= all.skip(i + 1));
        }
        match paths::file_name(known_paths[i].as_str()) {
            Some(last) => {
                if text::same(last.as_str(), name) {
                    return Some(known_paths[i].clone());
                }
            },
            None => {},
        }
        i += 1;
    }
    None
}

/// The path for an item: the checkout of the repository that its url names, or
/// nothing where it names none or there is none.
pub open spec fn item_path(url: Seq<char>, known: Seq<Seq<char>>) -> Seq<char> {
    match repo_of(url) {
        Some((owner, repo)) => match checkout(owner + seq!['/'] + repo, known) {
            Some(path) => path,
            None => Seq::empty(),
        },
        None => Seq::empty(),
    }
}

/// The path for each item.
pub open spec fn item_paths(items: Seq<FeedItemView>, known: Seq<Seq<char>>) -> Seq<Seq<char>> {
    items.map_values(|item: FeedItemView| item_path(item.url, known))
}

/// The path for each item.
pub fn resolve_feed_item_repo_paths(items: &Vec<FeedItem>, known_paths: &Vec<String>) -> (r: Vec<
    String,
>)
    ensures
        text::texts(r@) == item_paths(entries::item_views(items@), text::texts(known_paths@)),
{
    let mut r: Vec<String> = Vec::new();
    let mut i: usize = 0;
    while i < items.len()
        invariant
            i <= items.len(),
            r@.len() == i,
            forall|j: int|
                0 <= j < i ==> (#[trigger] r@[j])@ == item_path(
                    items@[j].url@,
                    text::texts(known_paths@),
                ),
        decreases items.len() - i,
    {
        let path: String = match repo_from_url(items[i].url.as_str()) {
            Some((owner, repo)) => {
                let parts = [owner.as_str(), "/", repo.as_str()];
                let full_name: String = text::glue(&parts);
                proof {
                    reveal_strlit("/");
                    reveal_with_fuel(text::glued, 4);
                    assert(text::slices(parts@) =~= seq![owner@, "/"@, repo@]);
                    assert(full_name@ =~= owner@ + seq!['/'] + repo@);
                }
                match resolve_repo_path(full_name.as_str(), known_paths.as_slice()) {
                    Some(path) => path,
                    None => String::new(),
                }
            },
            None => String::new(),
        };
        r.push(path);
        i += 1;
    }
    assert(text::texts(r@) =~= item_paths(
        entries::item_views(items@),
        text::texts(known_paths@),
    ));
    r
}

/// What every url on the forge starts with.
pub open spec fn forge_url(owner: Seq<char>, repo: Seq<char>) -> Seq<char> {
    "https://github.com/"@ + owner + seq!['/'] + repo
}

/// A url on the forge names the owner and the repository behind the forge's name,
/// whatever page of the repository it leads to; and its item is of that repository's
/// group.
pub proof fn a_url_names_its_repository(owner: Seq<char>, repo: Seq<char>, page: Seq<char>)
    requires
        owner.len() > 0,
        repo.len() > 0,
        !owner.contains('/'),
        !repo.contains('/'),
    ensures
        repo_of(forge_url(owner, repo)) == Some((owner, repo)),
        repo_of(forge_url(owner, repo) + seq!['/'] + page) == Some((owner, repo)),
        group_name(forge_url(owner, repo)) == repo,
        group_name(forge_url(owner, repo) + seq!['/'] + page) == repo,
{
    let forge = "https://github.com/"@;
    let short = forge_url(owner, repo);
    let long = short + seq!['/'] + page;
    let rest = owner.push('/') + repo;
    assert(short =~= forge + rest);
    assert(long =~= forge + (rest.push('/') + page));
    assert(short.subrange(0, forge.len() as int) =~= forge);
    assert(long.subrange(0, forge.len() as int) =~= forge);
    assert(short.skip(forge.len() as int) =~= rest);
    assert(long.skip(forge.len() as int) =~= rest.push('/') + page);
    text::lemma_split_on_absent(owner, '/');
    text::lemma_split_on_absent(repo, '/');
    text::lemma_split_on_concat(owner, '/', repo);
    text::lemma_split_on_concat(rest, '/', page);
    text::lemma_split_on_nonempty(page, '/');
    assert(text::split_on(rest, '/') =~= seq![owner, repo]);
    let pieces = text::split_on(rest.push('/') + page, '/');
    assert(pieces[0] == owner && pieces[1] == repo);
}

/// What a url names stands in it: behind the forge's name, between slashes. A url from
/// elsewhere, or one that stops short of a repository, names none, and its item is of the
/// group of the others.
pub proof fn a_named_repository_stands_in_the_url(url: Seq<char>)
    ensures
        repo_of(url) matches Some((owner, repo)) ==> owner.len() > 0 && repo.len() > 0
            && !owner.contains('/') && !repo.contains('/') && forge_url(owner, repo).is_prefix_of(
            url,
        ) && (url.len() > forge_url(owner, repo).len() ==> url[forge_url(owner, repo).len() as int]
            == '/'),
        !"https://github.com/"@.is_prefix_of(url) ==> repo_of(url) is None,
        repo_of(url) is None ==> group_name(url) == "other"@,
{
    let forge = "https://github.com/"@;
    match repo_of(url) {
        Some((owner, repo)) => {
            let s = url.skip(forge.len() as int);
            let k = text::cutting_starts_at_the_first_separator(s, '/');
            assert(s.contains('/'));
            let t = s.skip(k + 1);
            let j = text::cutting_starts_at_the_first_separator(t, '/');
            let pieces = text::split_on(s, '/');
            let more = text::split_on(t, '/');
            assert(pieces[0] == s.take(k));
            assert(pieces[1] == more[0]);
            assert(url =~= forge + s);
            let named = forge_url(owner, repo);
            if t.contains('/') {
                assert(more[0] == t.take(j));
                assert(url =~= named + (seq!['/'] + t.skip(j + 1)));
                assert(url[named.len() as int] == '/');
            } else {
                assert(more[0] == t);
                assert(url =~= named);
            }
            assert(url.subrange(0, named.len() as int) =~= named);
        },
        None => {},
    }
}

/// Is it a name that a directory may have?
pub open spec fn is_dir_name(name: Seq<char>) -> bool {
    name.len() > 0 && !name.contains('/') && name != "."@ && name != ".."@
}

/// A path is a checkout of a repository exactly where its last name is the repository's,
/// whoever owns it, with or without a slash at its end.
pub proof fn a_checkout_has_the_repository_s_name(
    dir: Seq<char>,
    name: Seq<char>,
    owner: Seq<char>,
    repo: Seq<char>,
)
    requires
        is_dir_name(name),
        !repo.contains('/'),
    ensures
        is_checkout_of(dir.push('/') + name, owner + seq!['/'] + repo) == (name == repo),
        is_checkout_of(dir.push('/') + name.push('/'), owner + seq!['/'] + repo) == (name == repo),
{
    text::the_last_piece_is_behind_the_separator(owner, '/', repo);
    assert(owner.push('/') + repo =~= owner + seq!['/'] + repo);
    lemma_last_name(dir, name);
}

proof fn lemma_last_name(dir: Seq<char>, name: Seq<char>)
    requires
        is_dir_name(name),
    ensures
        paths::last_name(text::split_on(dir.push('/') + name, '/')) == Some(name),
        paths::last_name(text::split_on(dir.push('/') + name.push('/'), '/')) == Some(name),
{
    let before = text::split_on(dir, '/');
    text::lemma_split_on_concat(dir, '/', name);
    text::lemma_split_on_absent(name, '/');
    let pieces = before + seq![name];
    assert(pieces.last() == name);
    assert(paths::last_name(pieces) == Some(name));
    let none = Seq::<char>::empty();
    let path = dir.push('/') + name;
    text::lemma_split_on_concat(path, '/', none);
    assert(path.push('/') + none =~= dir.push('/') + name.push('/'));
    assert(text::split_on(none, '/') =~= seq![none]);
    let longer = pieces + seq![none];
    assert(longer.last() == none);
    assert(longer.drop_last() =~= pieces);
}

/// The first known path that is a checkout of the repository is taken, and there is none
/// only where none of them is.
pub proof fn the_first_checkout_is_taken(full_name: Seq<char>, known: Seq<Seq<char>>)
    ensures
        match checkout(full_name, known) {
            Some(path) => exists|i: int|
                0 <= i < known.len() && #[trigger] known[i] == path && is_checkout_of(
                    path,
                    full_name,
                ) && forall|j: int| 0 <= j < i ==> !is_checkout_of(#[trigger] known[j], full_name),
            None => forall|i: int|
                0 <= i < known.len() ==> !is_checkout_of(#[trigger] known[i], full_name),
        },
    decreases known.len(),
{
    if known.len() > 0 && !is_checkout_of(known[0], full_name) {
        let rest = known.skip(1);
        the_first_checkout_is_taken(full_name, rest);
        match checkout(full_name, rest) {
            Some(path) => {
                let i = choose|i: int|
                    0 <= i < rest.len() && #[trigger] rest[i] == path && is_checkout_of(
                        path,
                        full_name,
                    ) && forall|j: int|
                        0 <= j < i ==> !is_checkout_of(#[trigger] rest[j], full_name);
                assert(known[i + 1] == path);
                assert forall|j: int| 0 <= j < i + 1 implies !is_checkout_of(
                    #[trigger] known[j],
                    full_name,
                ) by {
                    if j > 0 {
                        assert(rest[j - 1] == known[j]);
                    }
                }
            },
            None => {
                assert forall|i: int| 0 <= i < known.len() implies !is_checkout_of(
                    #[trigger] known[i],
                    full_name,
                ) by {
                    if i > 0 {
                        assert(rest[i - 1] == known[i]);
                    }
                }
            },
        }
    } else if known.len() > 0 {
        assert(known[0] == known[0]);
    }
}

/// Each item is worked on in the first known checkout of the repository that its own url
/// names, and in none where there is none.
pub proof fn an_item_goes_to_its_own_checkout(
    items: Seq<FeedItemView>,
    known: Seq<Seq<char>>,
    i: int,
    owner: Seq<char>,
    repo: Seq<char>,
    page: Seq<char>,
)
    requires
        0 <= i < items.len(),
        owner.len() > 0,
        repo.len() > 0,
        !owner.contains('/'),
        !repo.contains('/'),
        items[i].url == forge_url(owner, repo) || items[i].url == forge_url(owner, repo) + seq![
            '/',
        ] + page,
    ensures
        item_paths(items, known).len() == items.len(),
        checkout(owner + seq!['/'] + repo, known) matches Some(path) ==> item_paths(
            items,
            known,
        )[i] == path,
        checkout(owner + seq!['/'] + repo, known) is None ==> item_paths(items, known)[i]
            == Seq::<char>::empty(),
{
    a_url_names_its_repository(owner, repo, page);
}

/// An item whose url is not on the forge has no checkout.
pub proof fn without_a_repository_there_is_no_checkout(url: Seq<char>, known: Seq<Seq<char>>)
    requires
        !"https://github.com/"@.is_prefix_of(url),
    ensures
        item_path(url, known) == Seq::<char>::empty(),
{
}

} // verus!

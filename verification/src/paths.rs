//! Paths as text: components, `.` and `..`, and what lies inside what.

use vstd::prelude::*;

use crate::text;

verus! {

/// A path as its components show it: whether it starts at the root, and the
/// names on the way. Double and trailing slashes leave no trace in it.
#[derive(Clone, Debug)]
pub struct PathText {
    pub absolute: bool,
    pub names: Vec<String>,
}

/// [`PathText`] as values.
#[verifier::ext_equal]
pub struct PathView {
    pub absolute: bool,
    pub names: Seq<Seq<char>>,
}

impl View for PathText {
    type V = PathView;

    open spec fn view(&self) -> PathView {
        PathView { absolute: self.absolute, names: text::texts(self.names@) }
    }
}

/// Does the path start at the root?
pub open spec fn is_absolute(path: Seq<char>) -> bool {
    path.len() > 0 && path[0] == '/'
}

/// The names on a path: what stands between the slashes, but for what is empty
/// or `.`, with `..` resolved as text. A `..` that has no name to take back is
/// kept, so a path never comes to lie deeper than it was written.
pub open spec fn resolved(pieces: Seq<Seq<char>>) -> Seq<Seq<char>>
    decreases pieces.len(),
{
    if pieces.len() == 0 {
        Seq::empty()
    } else {
        let before = resolved(pieces.drop_last());
        let piece = pieces.last();
        if piece.len() == 0 || piece == "."@ {
            before
        } else if piece == ".."@ && before.len() > 0 && before.last() != ".."@ {
            before.drop_last()
        } else {
            before.push(piece)
        }
    }
}

/// The path with `.` and `..` resolved as text.
pub open spec fn lexical(path: Seq<char>) -> PathView {
    PathView { absolute: is_absolute(path), names: resolved(text::split_on(path, '/')) }
}

fn resolve_pieces(pieces: &Vec<String>) -> (r: Vec<String>)
    ensures
        text::texts(r@) == resolved(text::texts(pieces@)),
{
    let mut names: Vec<String> = Vec::new();
    let mut i: usize = 0;
    let ghost all = text::texts(pieces@);
    assert(text::texts(names@) =~= resolved(all.take(0)));
    while i < pieces.len()
        invariant
            i <= pieces.len(),
            text::texts(pieces@) == all,
            text::texts(names@) == resolved(all.take(i as int)),
        decreases pieces.len() - i,
    {
        proof {
            assert(all.take(i + 1).drop_last() =~= all.take(i as int));
            assert(all.take(i + 1).last() == pieces@[i as int]@);
            assert(text::texts(names@).len() == names@.len());
        }
        let piece = pieces[i].as_str();
        if piece.is_empty() || text::same(piece, ".") {
        } else if text::same(piece, "..") && names.len() > 0 && !text::same(
            names[names.len() - 1].as_str(),
            "..",
        ) {
            let ghost before = names@;
            names.pop();
            assert(text::texts(names@) =~= text::texts(before).drop_last());
        } else {
            let name: String = piece.to_owned();
            proof {
                text::lemma_texts_push(names@, name);
            }
            names.push(name);
        }
        i += 1;
    }
    assert(all.take(i as int) =~= all);
    names
}

/// Resolve `.` and `..` as text. Nothing on disk is looked at, so a link counts
/// as the name it has.
pub fn lexical_path(path: &str) -> (r: PathText)
    ensures
        r@ == lexical(path@),
{
    let pieces: Vec<String> = text::pieces_of(path, '/');
    let names: Vec<String> = resolve_pieces(&pieces);
    let cs: Vec<char> = text::chars_of(path);
    PathText { absolute: cs.len() > 0 && cs[0] == '/', names }
}

/// The path as text.
pub open spec fn shown(path: PathView) -> Seq<char> {
    if path.absolute {
        seq!['/'] + text::join(path.names, '/')
    } else {
        text::join(path.names, '/')
    }
}

/// The path as text.
pub fn display(path: &PathText) -> (r: String)
    ensures
        r@ == shown(path@),
{
    let mut r: String = String::new();
    proof {
        reveal_strlit("/");
    }
    if path.absolute {
        r.append("/");
    }
    let ghost front = r@;
    let ghost all = text::texts(path.names@);
    let mut i: usize = 0;
    assert(r@ =~= front + text::join(all.take(0), '/'));
    while i < path.names.len()
        invariant
            i <= path.names.len(),
            "/"@ == seq!['/'],
            all == text::texts(path.names@),
            r@ == front + text::join(all.take(i as int), '/'),
        decreases path.names.len() - i,
    {
        proof {
            assert(all.take(i + 1).drop_last() =~= all.take(i as int));
            assert(all.take(i + 1).last() == path.names@[i as int]@);
        }
        if i > 0 {
            r.append("/");
        }
        r.append(path.names[i].as_str());
        assert(r@ =~= front + text::join(all.take(i + 1), '/'));
        i += 1;
    }
    assert(all.take(i as int) =~= all);
    assert(front =~= if path.absolute {
        seq!['/']
    } else {
        Seq::empty()
    });
    assert(r@ =~= shown(path@));
    r
}

/// What stands between the slashes, but for what is empty or `.`; a `..` stands as
/// it is.
pub open spec fn components(pieces: Seq<Seq<char>>) -> Seq<Seq<char>>
    decreases pieces.len(),
{
    if pieces.len() == 0 {
        Seq::empty()
    } else if names_something(pieces.last()) {
        components(pieces.drop_last()).push(pieces.last())
    } else {
        components(pieces.drop_last())
    }
}

/// The resolved path as it reads from the root, where the working directory is
/// known: the directory is put in front of it, and a `..` at its front stays. One
/// that starts at the root already, or that names nothing, is as it is.
pub open spec fn from_root(path: Seq<char>, cwd: Option<Seq<char>>) -> PathView {
    let named = lexical(path);
    match cwd {
        Some(cwd) => if named.absolute || named.names.len() == 0 {
            named
        } else {
            PathView {
                absolute: is_absolute(cwd),
                names: components(text::split_on(cwd, '/')) + named.names,
            }
        },
        None => named,
    }
}

fn component_names(pieces: &Vec<String>) -> (r: Vec<String>)
    ensures
        text::texts(r@) == components(text::texts(pieces@)),
{
    let mut names: Vec<String> = Vec::new();
    let mut i: usize = 0;
    let ghost all = text::texts(pieces@);
    assert(text::texts(names@) =~= components(all.take(0)));
    while i < pieces.len()
        invariant
            i <= pieces.len(),
            text::texts(pieces@) == all,
            text::texts(names@) == components(all.take(i as int)),
        decreases pieces.len() - i,
    {
        proof {
            assert(all.take(i + 1).drop_last() =~= all.take(i as int));
            assert(all.take(i + 1).last() == pieces@[i as int]@);
        }
        let piece = pieces[i].as_str();
        if !piece.is_empty() && !text::same(piece, ".") {
            let name: String = piece.to_owned();
            proof {
                text::lemma_texts_push(names@, name);
            }
            names.push(name);
        }
        i += 1;
    }
    assert(all.take(i as int) =~= all);
    names
}

/// The resolved path as it reads from the root.
pub fn absolute_path(path: &str, cwd: Option<&str>) -> (r: PathText)
    ensures
        r@ == from_root(
            path@,
            match cwd {
                Some(cwd) => Some(cwd@),
                None => None,
            },
        ),
{
    let mut named: PathText = lexical_path(path);
    assert(text::texts(named.names@).len() == named.names@.len());
    match cwd {
        Some(cwd) => if named.absolute || named.names.len() == 0 {
            named
        } else {
            let pieces: Vec<String> = text::pieces_of(cwd, '/');
            let mut names: Vec<String> = component_names(&pieces);
            let ghost front = names@;
            let ghost back = named.names@;
            names.append(&mut named.names);
            assert(text::texts(names@) =~= text::texts(front) + text::texts(back));
            let cs: Vec<char> = text::chars_of(cwd);
            PathText { absolute: cs.len() > 0 && cs[0] == '/', names }
        },
        None => named,
    }
}

/// The path with every `..` resolved as text, those of the working directory too.
pub open spec fn settled(path: PathView) -> PathView {
    PathView { absolute: path.absolute, names: resolved(path.names) }
}

/// The path with every `..` resolved as text.
pub fn settle(path: &PathText) -> (r: PathText)
    ensures
        r@ == settled(path@),
{
    PathText { absolute: path.absolute, names: resolve_pieces(&path.names) }
}

/// Does `target` lie inside `root`, and is it not `root` itself?
pub open spec fn strictly_inside(target: PathView, root: PathView) -> bool {
    &&& target.absolute == root.absolute
    &&& root.names.len() < target.names.len()
    &&& target.names.take(root.names.len() as int) == root.names
}

/// Does `target` lie inside `root`, and is it not `root` itself?
pub fn is_strictly_inside(target: &PathText, root: &PathText) -> (r: bool)
    ensures
        r == strictly_inside(target@, root@),
{
    if target.absolute != root.absolute || root.names.len() >= target.names.len() {
        return false;
    }
    let mut i: usize = 0;
    while i < root.names.len()
        invariant
            i <= root.names.len() < target.names.len(),
            forall|j: int| 0 <= j < i ==> target.names@[j]@ == (#[trigger] root.names@[j])@,
        decreases root.names.len() - i,
    {
        if !text::same(target.names[i].as_str(), root.names[i].as_str()) {
            proof {
                let n = root@.names.len() as int;
                assert(target@.names.take(n)[i as int] == target.names@[i as int]@);
                assert(root@.names[i as int] == root.names@[i as int]@);
            }
            return false;
        }
        i += 1;
    }
    assert(target@.names.take(root@.names.len() as int) =~= root@.names);
    true
}

/// `name` below `dir`.
pub open spec fn joined(dir: Seq<char>, name: Seq<char>) -> Seq<char> {
    if dir.len() == 0 {
        name
    } else if dir.last() == '/' {
        dir + name
    } else {
        dir.push('/') + name
    }
}

/// `name` below `dir`.
pub fn join_path(dir: &str, name: &str) -> (r: String)
    ensures
        r@ == joined(dir@, name@),
{
    let cs: Vec<char> = text::chars_of(dir);
    if cs.len() == 0 {
        name.to_owned()
    } else if cs[cs.len() - 1] == '/' {
        dir.to_owned().concat(name)
    } else {
        proof {
            reveal_strlit("/");
        }
        let r: String = dir.to_owned().concat("/").concat(name);
        assert(r@ =~= dir@.push('/') + name@);
        r
    }
}

/// Does the piece name something?
pub open spec fn names_something(piece: Seq<char>) -> bool {
    piece.len() > 0 && piece != "."@
}

/// The last name on a path; none where the path names nothing, or goes up.
pub open spec fn last_name(pieces: Seq<Seq<char>>) -> Option<Seq<char>>
    decreases pieces.len(),
{
    if pieces.len() == 0 {
        None
    } else if !names_something(pieces.last()) {
        last_name(pieces.drop_last())
    } else if pieces.last() == ".."@ {
        None
    } else {
        Some(pieces.last())
    }
}

/// The last name on a path.
pub fn file_name(path: &str) -> (r: Option<String>)
    ensures
        match (r, last_name(text::split_on(path@, '/'))) {
            (Some(s), Some(name)) => s@ == name,
            (None, None) => true,
            _ => false,
        },
{
    let pieces: Vec<String> = text::pieces_of(path, '/');
    let ghost all = text::split_on(path@, '/');
    let mut i: usize = pieces.len();
    assert(all.take(i as int) =~= all);
    while i > 0
        invariant
            i <= pieces.len(),
            all == text::split_on(path@, '/'),
            text::texts(pieces@) == all,
            last_name(all) == last_name(all.take(i as int)),
        decreases i,
    {
        proof {
            assert(all.take(i as int).drop_last() =~= all.take(i - 1));
            assert(all.take(i as int).last() == pieces@[i - 1]@);
        }
        i -= 1;
        let piece = pieces[i].as_str();
        if !piece.is_empty() && !text::same(piece, ".") {
            if text::same(piece, "..") {
                return None;
            }
            return Some(piece.to_owned());
        }
    }
    None
}

/// A name behind pieces stands behind what they come to.
pub proof fn lemma_resolved_concat_name(pieces: Seq<Seq<char>>, name: Seq<char>)
    requires
        names_something(name),
        name != ".."@,
    ensures
        resolved(pieces.push(name)) == resolved(pieces).push(name),
{
    assert(pieces.push(name).drop_last() =~= pieces);
}

/// What is written below a directory lies in it: the names of the directory, then
/// its own.
pub proof fn lemma_lexical_joined(dir: Seq<char>, name: Seq<char>)
    requires
        names_something(name),
        name != ".."@,
        !name.contains('/'),
        dir.len() > 0,
    ensures
        lexical(joined(dir, name)).absolute == lexical(dir).absolute,
        lexical(joined(dir, name)).names == lexical(dir).names.push(name),
{
    text::lemma_split_on_absent(name, '/');
    if dir.last() == '/' {
        let x = dir.drop_last();
        assert(dir =~= x.push('/'));
        text::lemma_split_on_concat(x, '/', name);
        let pieces = text::split_on(x, '/');
        assert(text::split_on(dir, '/') =~= pieces.push(Seq::empty()));
        assert(pieces.push(Seq::empty()).drop_last() =~= pieces);
        assert(pieces + seq![name] =~= pieces.push(name));
        lemma_resolved_concat_name(pieces, name);
        assert(joined(dir, name)[0] == dir[0]);
    } else {
        text::lemma_split_on_concat(dir, '/', name);
        let pieces = text::split_on(dir, '/');
        assert(pieces + seq![name] =~= pieces.push(name));
        lemma_resolved_concat_name(pieces, name);
        assert(joined(dir, name)[0] == dir[0]);
    }
}

/// In a resolved path, `..` stands only in front of every name.
pub proof fn lemma_no_way_up_behind_a_name(pieces: Seq<Seq<char>>, i: int, j: int)
    requires
        0 <= i < j < resolved(pieces).len(),
        resolved(pieces)[i] != ".."@,
    ensures
        resolved(pieces)[j] != ".."@,
    decreases pieces.len(),
{
    if pieces.len() > 0 {
        let before = resolved(pieces.drop_last());
        let r = resolved(pieces);
        if j < before.len() {
            assert(r[j] == before[j] && r[i] == before[i]);
            lemma_no_way_up_behind_a_name(pieces.drop_last(), i, j);
        } else {
            assert(j == before.len());
            assert(r[i] == before[i]);
            if i < before.len() - 1 {
                lemma_no_way_up_behind_a_name(pieces.drop_last(), i, before.len() - 1);
            }
        }
    }
}

/// Is it a name on a path: not empty, without a slash, and not one of the two that mean a
/// directory already on the way?
pub open spec fn is_plain(name: Seq<char>) -> bool {
    name.len() > 0 && !name.contains('/') && name != "."@ && name != ".."@
}

/// A path is walked one step at a time: a name goes deeper, nothing and `.` stay, and `..`
/// takes back the name before it, or, where there is none, stays itself.
pub proof fn a_path_is_walked_step_by_step(pieces: Seq<Seq<char>>, name: Seq<char>)
    requires
        is_plain(name),
    ensures
        resolved(pieces.push(name)) == resolved(pieces).push(name),
        resolved(pieces.push(Seq::empty())) == resolved(pieces),
        resolved(pieces.push("."@)) == resolved(pieces),
        resolved(pieces.push(name).push(".."@)) == resolved(pieces),
        resolved(pieces).len() == 0 ==> resolved(pieces.push(".."@)) == seq![".."@],
        resolved(pieces).len() > 0 && resolved(pieces).last() == ".."@ ==> resolved(
            pieces.push(".."@),
        ) == resolved(pieces).push(".."@),
        resolved(Seq::<Seq<char>>::empty()) == Seq::<Seq<char>>::empty(),
{
    reveal_strlit(".");
    reveal_strlit("..");
    assert("."@.len() == 1 && ".."@.len() == 2);
    assert(pieces.push(name).drop_last() =~= pieces);
    assert(pieces.push(Seq::empty()).drop_last() =~= pieces);
    assert(pieces.push("."@).drop_last() =~= pieces);
    assert(pieces.push(".."@).drop_last() =~= pieces);
    assert(pieces.push(name).push(".."@).drop_last() =~= pieces.push(name));
    let deeper = pieces.push(name);
    assert(resolved(deeper) == resolved(pieces).push(name));
    assert(resolved(deeper).last() == name);
    assert(deeper.push(".."@).last() == ".."@);
    assert(resolved(deeper.push(".."@)) == resolved(deeper).drop_last());
    assert(resolved(deeper).drop_last() =~= resolved(pieces));
    if resolved(pieces).len() == 0 {
        assert(resolved(pieces.push(".."@)) =~= seq![".."@]);
    }
}

/// A name below a directory is behind the directory and one slash.
pub proof fn a_name_is_behind_its_directory_and_a_slash(dir: Seq<char>, name: Seq<char>)
    ensures
        dir.len() > 0 && dir.last() != '/' ==> joined(dir, name) == dir + seq!['/'] + name,
        joined(dir.push('/'), name) == dir.push('/') + name,
        joined(Seq::<char>::empty(), name) == name,
{
    assert(dir.push('/') + name =~= dir + seq!['/'] + name);
}

/// The last name on a path is the one behind its last slash, also where a slash is at the
/// end; a path that ends by going up, or is empty, has none.
pub proof fn the_last_name_is_behind_the_last_slash(dir: Seq<char>, name: Seq<char>)
    requires
        is_plain(name),
    ensures
        last_name(text::split_on(dir.push('/') + name, '/')) == Some(name),
        last_name(text::split_on(name, '/')) == Some(name),
        last_name(text::split_on(dir.push('/') + name.push('/'), '/')) == Some(name),
        last_name(text::split_on(dir.push('/') + ".."@, '/')) is None,
        last_name(text::split_on(Seq::<char>::empty(), '/')) is None,
{
    reveal_strlit("..");
    reveal_strlit(".");
    let before = text::split_on(dir, '/');
    text::lemma_split_on_concat(dir, '/', name);
    text::lemma_split_on_absent(name, '/');
    let pieces = before + seq![name];
    assert(pieces.last() == name);
    let none = Seq::<char>::empty();
    let path = dir.push('/') + name;
    text::lemma_split_on_concat(path, '/', none);
    assert(path.push('/') + none =~= dir.push('/') + name.push('/'));
    assert(text::split_on(none, '/') =~= seq![none]);
    let longer = pieces + seq![none];
    assert(longer.last() == none);
    assert(longer.drop_last() =~= pieces);
    assert(seq![none].drop_last() =~= Seq::<Seq<char>>::empty());
    assert(last_name(Seq::<Seq<char>>::empty()) is None);
    assert(!(".."@.contains('/')));
    text::lemma_split_on_absent(".."@, '/');
    text::lemma_split_on_concat(dir, '/', ".."@);
    let up = before + seq![".."@];
    assert(up.last() == ".."@);
    assert(seq![name].last() == name);
}

proof fn lemma_split_of_join(names: Seq<Seq<char>>)
    requires
        names.len() > 0,
        forall|i: int| 0 <= i < names.len() ==> !(#[trigger] names[i]).contains('/'),
    ensures
        text::split_on(text::join(names, '/'), '/') == names,
    decreases names.len(),
{
    let last = names[names.len() - 1];
    text::lemma_split_on_absent(last, '/');
    if names.len() == 1 {
        assert(names =~= seq![last]);
    } else {
        let before = names.drop_last();
        assert forall|i: int| 0 <= i < before.len() implies !(#[trigger] before[i]).contains('/') by {
            assert(before[i] == names[i]);
        }
        lemma_split_of_join(before);
        text::lemma_split_on_concat(text::join(before, '/'), '/', last);
        assert(before + seq![last] =~= names);
    }
}

proof fn lemma_plain_names_stay(front: Seq<Seq<char>>, names: Seq<Seq<char>>)
    requires
        resolved(front) == Seq::<Seq<char>>::empty(),
        forall|i: int| 0 <= i < names.len() ==> is_plain(#[trigger] names[i]),
    ensures
        resolved(front + names) == names,
    decreases names.len(),
{
    if names.len() == 0 {
        assert(front + names =~= front);
        assert(names =~= Seq::empty());
    } else {
        let before = names.drop_last();
        let last = names[names.len() - 1];
        assert forall|i: int| 0 <= i < before.len() implies is_plain(#[trigger] before[i]) by {
            assert(before[i] == names[i]);
        }
        lemma_plain_names_stay(front, before);
        assert((front + before).push(last) =~= front + names);
        a_path_is_walked_step_by_step(front + before, last);
        assert(before.push(last) =~= names);
    }
}

/// A path from the root that goes neither up nor in place is what it is written as.
pub proof fn a_clean_path_is_as_it_is_written(names: Seq<Seq<char>>)
    requires
        names.len() > 0,
        forall|i: int| 0 <= i < names.len() ==> is_plain(#[trigger] names[i]),
    ensures
        ({
            let path = seq!['/'] + text::join(names, '/');
            &&& lexical(path) == (PathView { absolute: true, names })
            &&& shown(lexical(path)) == path
        }),
{
    let inner = text::join(names, '/');
    let path = seq!['/'] + inner;
    let none = Seq::<char>::empty();
    lemma_split_of_join(names);
    text::lemma_split_on_concat(none, '/', inner);
    assert(none.push('/') + inner =~= path);
    assert(text::split_on(none, '/') =~= seq![none]);
    assert(seq![none].drop_last() =~= Seq::<Seq<char>>::empty());
    let front = seq![none];
    assert(front.last() == none);
    assert(resolved(front.drop_last()) == Seq::<Seq<char>>::empty());
    assert(resolved(front) == Seq::<Seq<char>>::empty());
    lemma_plain_names_stay(seq![none], names);
    assert(path[0] == '/');
}

proof fn lemma_join_concat(a: Seq<Seq<char>>, b: Seq<Seq<char>>)
    requires
        a.len() > 0,
        b.len() > 0,
    ensures
        text::join(a + b, '/') == text::join(a, '/').push('/') + text::join(b, '/'),
    decreases b.len(),
{
    let all = a + b;
    assert(all.last() == b.last());
    if b.len() == 1 {
        assert(all.drop_last() =~= a);
    } else {
        lemma_join_concat(a, b.drop_last());
        assert(all.drop_last() =~= a + b.drop_last());
        assert(text::join(all, '/') =~= text::join(a, '/').push('/') + text::join(b, '/'));
    }
}

/// What lies strictly inside a directory is written as the directory, a slash and
/// something more.
pub proof fn inside_means_behind_the_directory(target: PathView, root: PathView)
    requires
        strictly_inside(target, root),
        root.names.len() > 0,
    ensures
        shown(root).push('/').is_prefix_of(shown(target)),
        target.names.len() > root.names.len(),
        target.absolute == root.absolute,
{
    let rest = target.names.skip(root.names.len() as int);
    assert(target.names =~= root.names + rest);
    lemma_join_concat(root.names, rest);
    let start = shown(root).push('/');
    assert(shown(target) =~= start + text::join(rest, '/'));
    assert(shown(target).subrange(0, start.len() as int) =~= start);
}

/// Nothing lies strictly inside itself, and a longer path with the same names in front
/// does.
pub proof fn nothing_is_inside_itself(root: PathView, more: Seq<Seq<char>>)
    ensures
        !strictly_inside(root, root),
        more.len() > 0 ==> strictly_inside(
            PathView { absolute: root.absolute, names: root.names + more },
            root,
        ),
        !strictly_inside(
            root,
            PathView { absolute: root.absolute, names: root.names + more },
        ),
{
    assert((root.names + more).take(root.names.len() as int) =~= root.names);
}

/// A path that starts at the root is not changed by the working directory; a relative one
/// stands behind the directory's names.
pub proof fn a_relative_path_starts_at_the_working_directory(path: Seq<char>, cwd: Seq<char>)
    ensures
        path.len() > 0 && path[0] == '/' ==> from_root(path, Some(cwd)) == lexical(path),
        from_root(path, None) == lexical(path),
        (path.len() == 0 || path[0] != '/') && lexical(path).names.len() > 0 ==> from_root(
            path,
            Some(cwd),
        ).names == components(text::split_on(cwd, '/')) + lexical(path).names,
{
}

/// The path of a directory that is reached from the root by these names.
pub open spec fn rooted(names: Seq<Seq<char>>) -> Seq<char> {
    seq!['/'] + text::join(names, '/')
}

/// A name below a directory is the directory's names and that name.
pub proof fn a_name_lengthens_a_path(names: Seq<Seq<char>>, name: Seq<char>)
    requires
        names.len() > 0,
        forall|i: int| 0 <= i < names.len() ==> is_plain(#[trigger] names[i]),
    ensures
        rooted(names).last() != '/',
        rooted(names) + seq!['/'] + name == rooted(names.push(name)),
        joined(rooted(names), name) == rooted(names.push(name)),
{
    let last = names[names.len() - 1];
    let inner = text::join(names, '/');
    assert(is_plain(last));
    assert(inner.len() >= last.len() && inner.last() == last.last());
    assert(last.contains(last.last()));
    let longer = names.push(name);
    assert(longer.drop_last() =~= names);
    assert(text::join(longer, '/') == inner.push('/') + name);
    assert(rooted(names) + seq!['/'] + name =~= rooted(longer));
    a_name_is_behind_its_directory_and_a_slash(rooted(names), name);
}

/// There is nothing to settle on a path of plain names.
pub proof fn lemma_plain_is_settled(names: Seq<Seq<char>>)
    requires
        forall|i: int| 0 <= i < names.len() ==> is_plain(#[trigger] names[i]),
    ensures
        resolved(names) == names,
{
    lemma_plain_names_stay(Seq::empty(), names);
    assert(Seq::<Seq<char>>::empty() + names =~= names);
}

/// The names on a path are its pieces but for those that are empty or mean the directory
/// itself; a way up stays as it is written.
pub proof fn empty_pieces_and_dots_are_no_names(pieces: Seq<Seq<char>>, name: Seq<char>)
    requires
        is_plain(name),
    ensures
        components(pieces.push(name)) == components(pieces).push(name),
        components(pieces.push(".."@)) == components(pieces).push(".."@),
        components(pieces.push("."@)) == components(pieces),
        components(pieces.push(Seq::empty())) == components(pieces),
        components(Seq::<Seq<char>>::empty()) == Seq::<Seq<char>>::empty(),
{
    reveal_strlit(".");
    reveal_strlit("..");
    assert("."@.len() == 1 && ".."@.len() == 2);
    assert(pieces.push(name).drop_last() =~= pieces);
    assert(pieces.push(".."@).drop_last() =~= pieces);
    assert(pieces.push("."@).drop_last() =~= pieces);
    assert(pieces.push(Seq::empty()).drop_last() =~= pieces);
}

} // verus!

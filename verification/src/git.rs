//! Small questions to git, and what its answers say.

use vstd::prelude::*;

use crate::process;
use crate::process::{Command, Reply};
use crate::text;

verus! {

/// The remote branch that a base branch follows.
pub open spec fn origin_name(base: Seq<char>) -> Seq<char> {
    "origin/"@ + base
}

/// The remote branch that a base branch follows.
pub fn origin_ref(base: &str) -> (r: String)
    ensures
        r@ == origin_name(base@),
{
    "origin/".to_owned().concat(base)
}

/// The command that asks for a repository's default branch.
pub open spec fn default_branch_args() -> Seq<Seq<char>> {
    seq!["symbolic-ref"@, "refs/remotes/origin/HEAD"@]
}

/// The command that asks for a repository's default branch.
pub fn default_branch_query(repo_path: &str) -> (r: Command)
    ensures
        r@ == process::git_in(repo_path@, default_branch_args()),
{
    let r: Command = process::git(repo_path, &["symbolic-ref", "refs/remotes/origin/HEAD"]);
    assert(r@.args =~= process::git_in(repo_path@, default_branch_args()).args);
    r
}

/// The default branch that an answer says: what stands behind the last slash of
/// the ref that it names, and `main` where it names none.
pub open spec fn default_branch(reply: process::ReplyView) -> Seq<char> {
    match reply {
        process::ReplyView::Exited { code, stdout, .. } => {
            let branch = text::after_last(text::trim(stdout), '/');
            if code == Some(0i32) && branch.len() > 0 {
                branch
            } else {
                "main"@
            }
        },
        process::ReplyView::NotRun(_) => "main"@,
    }
}

/// The default branch, from what came of [`default_branch_query`].
pub fn detect_default_branch(reply: &Reply) -> (r: String)
    ensures
        r@ == default_branch(reply@),
        r@.len() > 0,
{
    proof {
        reveal_strlit("main");
    }
    if let Reply::Exited { code, stdout, .. } = reply {
        if reply.success() {
            let refname: String = text::trimmed(stdout.as_str());
            let pieces: Vec<String> = text::pieces_of(refname.as_str(), '/');
            proof {
                text::lemma_split_on_nonempty(refname@, '/');
                assert(text::texts(pieces@).len() == pieces@.len());
                assert(text::texts(pieces@).last() == pieces@[pieces@.len() - 1]@);
            }
            let branch = pieces[pieces.len() - 1].as_str();
            if !branch.is_empty() {
                return branch.to_owned();
            }
        }
    }
    "main".to_owned()
}

/// The default branch is what stands behind the last slash of the ref that git wrote,
/// without the white space round it; where git ended badly, did not run or wrote nothing,
/// it is `main`.
pub proof fn the_default_branch_is_the_last_name(
    front: Seq<char>,
    above: Seq<char>,
    branch: Seq<char>,
    back: Seq<char>,
    reply: process::ReplyView,
)
    requires
        text::all_white(front),
        text::all_white(back),
        above.len() > 0,
        !text::is_white(above[0]),
        branch.len() > 0,
        text::no_white(branch),
        !branch.contains('/'),
    ensures
        reply matches process::ReplyView::Exited { code, stdout, .. } ==> (code == Some(0i32)
            && stdout == front + above + seq!['/'] + branch + back ==> default_branch(reply)
            == branch),
        reply matches process::ReplyView::Exited { code, stdout, .. } ==> (code == Some(0i32)
            && stdout == front + branch + back ==> default_branch(reply) == branch),
        reply matches process::ReplyView::Exited { code, stdout, .. } ==> (code == Some(0i32)
            && text::all_white(stdout) ==> default_branch(reply) == "main"@),
        !reply.succeeded() ==> default_branch(reply) == "main"@,
{
    let named = above.push('/') + branch;
    assert(named[0] == above[0]);
    assert(named[named.len() - 1] == branch[branch.len() - 1]);
    text::trimming_takes_the_white_space_round_it(front, named, back);
    text::trimming_takes_the_white_space_round_it(front, branch, back);
    assert(front + above + seq!['/'] + branch + back =~= front + named + back);
    text::the_last_piece_is_behind_the_separator(above, '/', branch);
    match reply {
        process::ReplyView::Exited { stdout, .. } => {
            if text::all_white(stdout) {
                text::trimming_leaves_what_is_not_white(stdout);
                let none = Seq::<char>::empty();
                assert(text::trim(stdout) =~= none);
                assert(text::split_on(none, '/') =~= seq![none]);
            }
        },
        _ => {},
    }
}

/// The remote branch is the branch behind the remote's name.
pub proof fn the_remote_branch_has_the_remote_s_name(base: Seq<char>)
    ensures
        origin_name(base) == "origin/"@ + base,
{
}

/// The default branch is asked for by the ref that the remote's head stands for.
pub proof fn the_default_branch_is_the_remote_s_head()
    ensures
        default_branch_args() == seq!["symbolic-ref"@, "refs/remotes/origin/HEAD"@],
{
}

} // verus!

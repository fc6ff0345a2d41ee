//! What an agent is told.

use vstd::prelude::*;

use crate::text;
use crate::worktree::start::{StartPoint, StartPointView};

verus! {

/// The agent's note on a reused worktree: bring the branch up to date, and onto
/// the ref that it was made from.
pub open spec fn reuse_note(sp: StartPointView) -> Seq<char> {
    text::glued(
        seq![
            "This worktree was reused from a previous attempt. Before anything else, run `git fetch origin "@,
            sp.base(),
            "` and `git rebase "@,
            sp.git_ref(),
            "`."@,
        ],
    )
}

/// The agent's note on a reused worktree.
pub fn reused_rebase_preamble(start_point: &StartPoint) -> (r: String)
    ensures
        r@ == reuse_note(start_point@),
{
    let target: String = start_point.git_ref();
    let parts = [
        "This worktree was reused from a previous attempt. Before anything else, run `git fetch origin ",
        start_point.base(),
        "` and `git rebase ",
        target.as_str(),
        "`.",
    ];
    let r: String = text::glue(&parts);
    assert(r@ == reuse_note(start_point@)) by {
        assert(text::slices(parts@) =~= seq![
            "This worktree was reused from a previous attempt. Before anything else, run `git fetch origin "@,
            start_point@.base(),
            "` and `git rebase "@,
            start_point@.git_ref(),
            "`."@,
        ]);
    }
    r
}

/// The note on a reused worktree has the agent fetch the branch and rebase onto the ref
/// that the worktree starts from: the remote's branch, or the local one where that is it.
pub proof fn the_note_names_the_branch_and_the_ref(base: Seq<char>)
    ensures
        reuse_note(StartPointView::Remote { base })
            == "This worktree was reused from a previous attempt. Before anything else, run `git fetch origin "@
            + base + "` and `git rebase "@ + ("origin/"@ + base) + "`."@,
        reuse_note(StartPointView::Local { base })
            == "This worktree was reused from a previous attempt. Before anything else, run `git fetch origin "@
            + base + "` and `git rebase "@ + base + "`."@,
{
    let start =
        "This worktree was reused from a previous attempt. Before anything else, run `git fetch origin "@;
    lemma_five_parts(start, base, "` and `git rebase "@, "origin/"@ + base, "`."@);
    lemma_five_parts(start, base, "` and `git rebase "@, base, "`."@);
}

proof fn lemma_five_parts(a: Seq<char>, b: Seq<char>, c: Seq<char>, d: Seq<char>, e: Seq<char>)
    ensures
        text::glued(seq![a, b, c, d, e]) == a + b + c + d + e,
{
    let none = Seq::<Seq<char>>::empty();
    text::glueing_adds_at_the_end(none, a);
    text::glueing_adds_at_the_end(none.push(a), b);
    text::glueing_adds_at_the_end(none.push(a).push(b), c);
    text::glueing_adds_at_the_end(none.push(a).push(b).push(c), d);
    text::glueing_adds_at_the_end(none.push(a).push(b).push(c).push(d), e);
    assert(none.push(a).push(b).push(c).push(d).push(e) =~= seq![a, b, c, d, e]);
    assert(Seq::<char>::empty() + a =~= a);
}

} // verus!

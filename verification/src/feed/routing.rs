//! Where a pull request belongs in the reviews subtree, by its signals.

use vstd::prelude::*;

use crate::models::{FeedRole, Signal};

verus! {

/// Is there nothing for the user to review? A pull request that the user wrote is
/// none to review, and neither is one that they approved and nobody asks them to look at
/// again.
pub open spec fn excluded(signals: Seq<Signal>) -> bool {
    ||| signals.contains(Signal::AuthorMe)
    ||| {
        &&& signals.contains(Signal::Approved)
        &&& !signals.contains(Signal::DirectRequest)
        &&& !signals.contains(Signal::TeamRequest)
    }
}

/// The role under which an item is filed. The user's own engagement comes first,
/// then the bot author, then the ways of being asked.
pub open spec fn role_of(signals: Seq<Signal>) -> FeedRole {
    if (signals.contains(Signal::Reviewed) || signals.contains(Signal::Commented))
        && !signals.contains(Signal::AuthorMe) {
        FeedRole::MyReviews
    } else if signals.contains(Signal::AuthorBot) {
        FeedRole::Bots
    } else if signals.contains(Signal::DirectRequest) || signals.contains(Signal::OrgReview) {
        FeedRole::MyReviews
    } else if signals.contains(Signal::TeamRequest) {
        FeedRole::TeamReviews
    } else {
        FeedRole::MyReviews
    }
}

fn holds(signals: &[Signal], signal: Signal) -> (r: bool)
    ensures
        r == signals@.contains(signal),
{
    let mut i: usize = 0;
    while i < signals.len()
        invariant
            i <= signals.len(),
            forall|j: int| 0 <= j < i ==> signals@[j] != signal,
        decreases signals.len() - i,
    {
        if signals[i] == signal {
            return true;
        }
        i += 1;
    }
    false
}

/// Must the item stay out of the reviews subtree altogether?
pub fn excluded_from_reviews(signals: &[Signal]) -> (r: bool)
    ensures
        r == excluded(signals@),
{
    if holds(signals, Signal::AuthorMe) {
        return true;
    }
    holds(signals, Signal::Approved) && !holds(signals, Signal::DirectRequest) && !holds(
        signals,
        Signal::TeamRequest,
    )
}

/// The role under which an item is filed.
pub fn route(signals: &[Signal]) -> (r: FeedRole)
    ensures
        r == role_of(signals@),
{
    let engaged: bool = (holds(signals, Signal::Reviewed) || holds(signals, Signal::Commented)) && !holds(
        signals,
        Signal::AuthorMe,
    );
    if engaged {
        FeedRole::MyReviews
    } else if holds(signals, Signal::AuthorBot) {
        FeedRole::Bots
    } else if holds(signals, Signal::DirectRequest) || holds(signals, Signal::OrgReview) {
        FeedRole::MyReviews
    } else if holds(signals, Signal::TeamRequest) {
        FeedRole::TeamReviews
    } else {
        FeedRole::MyReviews
    }
}

/// Every item has a place: one of the three review roles, whatever its signals.
pub proof fn every_item_has_a_review_role(signals: Seq<Signal>)
    ensures
        role_of(signals) == FeedRole::MyReviews || role_of(signals) == FeedRole::TeamReviews
            || role_of(signals) == FeedRole::Bots,
{
}

/// An approval says nothing of where an item belongs.
pub proof fn approval_does_not_move_an_item(signals: Seq<Signal>)
    ensures
        role_of(signals.push(Signal::Approved)) == role_of(signals),
{
    assert forall|s: Signal| s != Signal::Approved implies #[trigger] signals.push(
        Signal::Approved,
    ).contains(s) == signals.contains(s) by {
        lemma_push_contains(signals, Signal::Approved, s);
    }
}

/// Nothing brings an item back that the user wrote, and only being asked brings
/// one back that they approved.
pub proof fn only_a_request_rescues(signals: Seq<Signal>, more: Signal)
    requires
        excluded(signals),
        !excluded(signals.push(more)),
    ensures
        more == Signal::DirectRequest || more == Signal::TeamRequest,
        !signals.contains(Signal::AuthorMe),
{
    lemma_push_contains(signals, more, Signal::AuthorMe);
    lemma_push_contains(signals, more, Signal::Approved);
    lemma_push_contains(signals, more, Signal::DirectRequest);
    lemma_push_contains(signals, more, Signal::TeamRequest);
}

proof fn lemma_push_contains(signals: Seq<Signal>, more: Signal, s: Signal)
    ensures
        signals.push(more).contains(s) == (signals.contains(s) || s == more),
{
    let longer = signals.push(more);
    if signals.contains(s) {
        let i = choose|i: int| 0 <= i < signals.len() && signals[i] == s;
        assert(longer[i] == s);
    }
    if s == more {
        assert(longer[signals.len() as int] == s);
    }
    if longer.contains(s) && s != more {
        let i = choose|i: int| 0 <= i < longer.len() && longer[i] == s;
        assert(signals[i] == s);
    }
}

/// Do the two hold the same signals, in whatever order and however often?
pub open spec fn same_signals(a: Seq<Signal>, b: Seq<Signal>) -> bool {
    forall|s: Signal| #[trigger] a.contains(s) == b.contains(s)
}

/// Who looked at a pull request that is not their own has it among their reviews, whoever
/// wrote it and whoever is asked.
pub proof fn engagement_comes_first(signals: Seq<Signal>)
    requires
        signals.contains(Signal::Reviewed) || signals.contains(Signal::Commented),
        !signals.contains(Signal::AuthorMe),
    ensures
        role_of(signals) == FeedRole::MyReviews,
{
}

/// A bot's pull request that the user did not look at is the bots', whoever is asked to
/// review it; and nothing else is the bots'.
pub proof fn a_bot_comes_before_every_request(signals: Seq<Signal>)
    ensures
        role_of(signals) == FeedRole::Bots <==> signals.contains(Signal::AuthorBot) && (
        signals.contains(Signal::AuthorMe) || (!signals.contains(Signal::Reviewed)
            && !signals.contains(Signal::Commented))),
{
}

/// Of a pull request that no bot wrote and the user did not look at, a request to the team
/// alone makes it the team's: one to the user, or to the organisation, comes before it,
/// and without any it is the user's.
pub proof fn the_team_comes_last(signals: Seq<Signal>)
    ensures
        role_of(signals) == FeedRole::TeamReviews ==> signals.contains(Signal::TeamRequest)
            && !signals.contains(Signal::DirectRequest) && !signals.contains(Signal::OrgReview)
            && !signals.contains(Signal::AuthorBot),
        signals.contains(Signal::TeamRequest) && !signals.contains(Signal::DirectRequest)
            && !signals.contains(Signal::OrgReview) && !signals.contains(Signal::AuthorBot)
            && !signals.contains(Signal::Reviewed) && !signals.contains(Signal::Commented)
            ==> role_of(signals) == FeedRole::TeamReviews,
        (signals.contains(Signal::DirectRequest) || signals.contains(Signal::OrgReview))
            && !signals.contains(Signal::AuthorBot) ==> role_of(signals) == FeedRole::MyReviews,
        !signals.contains(Signal::TeamRequest) && !signals.contains(Signal::AuthorBot) ==> role_of(
            signals,
        ) == FeedRole::MyReviews,
        signals.contains(Signal::AuthorMe) && signals.contains(Signal::TeamRequest)
            && !signals.contains(Signal::DirectRequest) && !signals.contains(Signal::OrgReview)
            && !signals.contains(Signal::AuthorBot) ==> role_of(signals) == FeedRole::TeamReviews,
{
}

/// What the user wrote stays out, and so does what they approved and nobody asks them or
/// their team to look at again; everything else is in.
pub proof fn only_settled_work_stays_out(signals: Seq<Signal>)
    ensures
        signals.contains(Signal::AuthorMe) ==> excluded(signals),
        signals.contains(Signal::Approved) && !signals.contains(Signal::DirectRequest)
            && !signals.contains(Signal::TeamRequest) ==> excluded(signals),
        !signals.contains(Signal::AuthorMe) && !signals.contains(Signal::Approved) ==> !excluded(
            signals,
        ),
        !signals.contains(Signal::AuthorMe) && (signals.contains(Signal::DirectRequest)
            || signals.contains(Signal::TeamRequest)) ==> !excluded(signals),
{
}

/// Neither the order of the signals nor how often one comes makes a difference.
pub proof fn only_which_signals_there_are_counts(a: Seq<Signal>, b: Seq<Signal>)
    requires
        same_signals(a, b),
    ensures
        role_of(a) == role_of(b),
        excluded(a) == excluded(b),
{
}

} // verus!

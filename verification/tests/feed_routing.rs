use dispatch::feed::routing::{excluded_from_reviews, route};
use dispatch::models::{FeedRole, Signal};

#[test]
fn direct_request_to_my() {
    assert_eq!(route(&[Signal::DirectRequest]), FeedRole::MyReviews);
}
#[test]
fn team_request_to_team() {
    assert_eq!(route(&[Signal::TeamRequest]), FeedRole::TeamReviews);
}
#[test]
fn reviewed_to_my() {
    assert_eq!(route(&[Signal::Reviewed]), FeedRole::MyReviews);
}
#[test]
fn commented_to_my() {
    assert_eq!(route(&[Signal::Commented]), FeedRole::MyReviews);
}
#[test]
fn bot_to_bots() {
    assert_eq!(route(&[Signal::AuthorBot]), FeedRole::Bots);
}

#[test]
fn reviewed_bot_to_my() {
    assert_eq!(route(&[Signal::Reviewed, Signal::AuthorBot]), FeedRole::MyReviews);
}
#[test]
fn own_comment_on_bot_is_bots() {
    assert_eq!(route(&[Signal::Commented, Signal::AuthorMe, Signal::AuthorBot]), FeedRole::Bots);
}
#[test]
fn reviewed_team_to_my() {
    assert_eq!(route(&[Signal::TeamRequest, Signal::Reviewed]), FeedRole::MyReviews);
}
#[test]
fn empty_to_my() {
    assert_eq!(route(&[]), FeedRole::MyReviews);
}

#[test]
fn org_review_to_my() {
    assert_eq!(route(&[Signal::OrgReview]), FeedRole::MyReviews);
}

#[test]
fn org_review_bot_to_bots() {
    assert_eq!(route(&[Signal::OrgReview, Signal::AuthorBot]), FeedRole::Bots);
}

#[test]
fn org_review_bot_reviewed_to_my() {
    assert_eq!(
        route(&[Signal::OrgReview, Signal::AuthorBot, Signal::Reviewed]),
        FeedRole::MyReviews
    );
}

#[test]
fn author_me_is_excluded() {
    assert!(excluded_from_reviews(&[Signal::AuthorMe]));
}

#[test]
fn empty_is_not_excluded() {
    assert!(!excluded_from_reviews(&[]));
}

#[test]
fn no_other_signal_excludes() {
    for s in [
        Signal::DirectRequest,
        Signal::TeamRequest,
        Signal::Reviewed,
        Signal::Commented,
        Signal::AuthorBot,
        Signal::OrgReview,
    ] {
        assert!(
            !excluded_from_reviews(&[s]),
            "{s:?} must not exclude an item"
        );
    }
    assert!(!excluded_from_reviews(&[
        Signal::DirectRequest,
        Signal::TeamRequest,
        Signal::Reviewed,
        Signal::Commented,
        Signal::AuthorBot,
        Signal::OrgReview,
    ]));
}

#[test]
fn author_me_excluded_alongside_every_other_signal() {
    for s in [
        Signal::DirectRequest,
        Signal::TeamRequest,
        Signal::Reviewed,
        Signal::Commented,
        Signal::AuthorBot,
        Signal::OrgReview,
        Signal::Approved,
    ] {
        assert!(
            excluded_from_reviews(&[Signal::AuthorMe, s]),
            "author_me + {s:?} must still be excluded"
        );
    }
    assert!(excluded_from_reviews(&[
        Signal::DirectRequest,
        Signal::TeamRequest,
        Signal::Reviewed,
        Signal::Commented,
        Signal::AuthorBot,
        Signal::AuthorMe,
        Signal::OrgReview,
        Signal::Approved,
    ]));
}

#[test]
fn approved_alone_is_excluded() {
    assert!(excluded_from_reviews(&[Signal::Approved]));
}

#[test]
fn approved_with_reviewed_is_excluded() {
    assert!(excluded_from_reviews(&[Signal::Approved, Signal::Reviewed]));
}

#[test]
fn approved_is_not_rescued_by_non_request_signals() {
    for s in [Signal::Reviewed, Signal::Commented, Signal::AuthorBot, Signal::OrgReview] {
        assert!(
            excluded_from_reviews(&[Signal::Approved, s]),
            "approved + {s:?} must still be excluded"
        );
    }
}

#[test]
fn each_request_signal_rescues_an_approved_pr() {
    for s in [Signal::DirectRequest, Signal::TeamRequest] {
        assert!(
            !excluded_from_reviews(&[Signal::Approved, s]),
            "approved + {s:?} must be rescued"
        );
    }
}

#[test]
fn re_request_after_approval_is_kept() {
    assert!(!excluded_from_reviews(&[Signal::Approved, Signal::Reviewed, Signal::DirectRequest]));
    assert!(!excluded_from_reviews(&[Signal::Approved, Signal::Reviewed, Signal::TeamRequest]));
}

#[test]
fn org_review_alone_does_not_rescue_an_approved_pr() {
    assert!(excluded_from_reviews(&[Signal::Approved, Signal::OrgReview]));
    assert!(!excluded_from_reviews(&[
        Signal::Approved,
        Signal::OrgReview,
        Signal::DirectRequest
    ]));
}

#[test]
fn author_me_beats_the_approval_rescue() {
    assert!(excluded_from_reviews(&[Signal::AuthorMe, Signal::Approved, Signal::DirectRequest]));
}

#[test]
fn route_ignores_the_approval_signal() {
    assert_eq!(route(&[Signal::Approved]), FeedRole::MyReviews);
    assert_eq!(route(&[Signal::Approved, Signal::AuthorBot]), FeedRole::Bots);
    assert_eq!(route(&[Signal::Approved, Signal::TeamRequest]), FeedRole::TeamReviews);
}

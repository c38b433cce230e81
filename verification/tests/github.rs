use pear_reviewer::errors::{AuditError, DataIssue, InvariantIssue};
use pear_reviewer::github::{pr_head_sha, validate_associated_prs, validate_reviews,
    RawPullRequest, RawReview};

fn raw_review(approved: bool, commit: &str, at: i64, user: &str) -> RawReview {
    RawReview {
        approved,
        commit_id: Some(commit.to_owned()),
        submitted_at: Some(at),
        user: Some(user.to_owned()),
    }
}

#[test]
fn validate_reviews_sorts_by_submission_time() {
    let raw = vec![
        raw_review(true, "c2", 30, "u3"),
        raw_review(true, "c1", 10, "u1"),
        raw_review(false, "c1", 20, "u2"),
    ];
    let reviews = validate_reviews(&raw, false).unwrap();
    let times: Vec<i64> = reviews.iter().map(|r| r.submitted_at).collect();
    assert_eq!(times, vec![10, 20, 30]);
    let users: Vec<&str> = reviews.iter().map(|r| r.user.as_str()).collect();
    assert_eq!(users, vec!["u1", "u2", "u3"]);
}

// The sort is stable: reviews submitted at the same instant keep their
// response order.
#[test]
fn validate_reviews_sort_is_stable() {
    let raw = vec![
        raw_review(false, "c1", 42, "u1"),
        raw_review(true, "c2", 42, "u1"),
        raw_review(true, "c3", 41, "u2"),
    ];
    let reviews = validate_reviews(&raw, false).unwrap();
    assert_eq!(reviews[0].commit_id, "c3");
    assert_eq!(reviews[1].commit_id, "c1");
    assert!(!reviews[1].approved);
    assert_eq!(reviews[2].commit_id, "c2");
    assert!(reviews[2].approved);
}

#[test]
fn validate_reviews_extra_page_fails() {
    let err = validate_reviews(&vec![], true).unwrap_err();
    assert_eq!(err, AuditError::Invariant(InvariantIssue::ExtraPage));
}

#[test]
fn validate_reviews_missing_commit_id() {
    let mut raw = vec![raw_review(true, "c1", 1, "u1")];
    raw.push(RawReview {
        approved: true,
        commit_id: None,
        submitted_at: Some(2),
        user: Some("u2".to_owned()),
    });
    let err = validate_reviews(&raw, false).unwrap_err();
    assert_eq!(err, AuditError::Data(DataIssue::ReviewWithoutCommitId));
}

#[test]
fn validate_reviews_missing_submitted_at() {
    let raw = vec![RawReview {
        approved: true,
        commit_id: Some("c1".to_owned()),
        submitted_at: None,
        user: Some("u1".to_owned()),
    }];
    let err = validate_reviews(&raw, false).unwrap_err();
    assert_eq!(err, AuditError::Data(DataIssue::ReviewWithoutSubmittedAt));
}

#[test]
fn validate_reviews_missing_user() {
    let raw = vec![RawReview {
        approved: true,
        commit_id: Some("c1".to_owned()),
        submitted_at: Some(1),
        user: None,
    }];
    let err = validate_reviews(&raw, false).unwrap_err();
    assert_eq!(err, AuditError::Data(DataIssue::ReviewWithoutUser));
}

#[test]
fn validate_associated_prs_maps_fields() {
    let raw = vec![
        RawPullRequest {
            number: 7,
            html_url: Some("https://github.com/o/r/pull/7".to_owned()),
        },
        RawPullRequest {
            number: 8,
            html_url: Some("https://github.com/o/r/pull/8".to_owned()),
        },
    ];
    let prs = validate_associated_prs(&raw, false).unwrap();
    assert_eq!(prs.len(), 2);
    assert_eq!(prs[0].number, 7);
    assert_eq!(prs[0].url, "https://github.com/o/r/pull/7");
    assert_eq!(prs[1].number, 8);
}

#[test]
fn validate_associated_prs_missing_link() {
    let raw = vec![RawPullRequest { number: 7, html_url: None }];
    let err = validate_associated_prs(&raw, false).unwrap_err();
    assert_eq!(err, AuditError::Data(DataIssue::PrWithoutHtmlUrl));
}

#[test]
fn validate_associated_prs_extra_page_fails() {
    let err = validate_associated_prs(&vec![], true).unwrap_err();
    assert_eq!(err, AuditError::Invariant(InvariantIssue::ExtraPage));
}

#[test]
fn pr_head_sha_returns_last_commit() {
    let shas = vec!["a".to_owned(), "b".to_owned(), "c".to_owned()];
    assert_eq!(pr_head_sha(&shas, false).unwrap(), "c");
}

#[test]
fn pr_head_sha_of_empty_pr_fails() {
    let err = pr_head_sha(&vec![], false).unwrap_err();
    assert_eq!(err, AuditError::Data(DataIssue::PrWithoutCommits));
    assert_eq!(err.message(), "PR contains no commits");
}

#[test]
fn pr_head_sha_over_commit_cap_fails() {
    let shas: Vec<String> = (0..251).map(|i| format!("sha{i}")).collect();
    let err = pr_head_sha(&shas, false).unwrap_err();
    assert_eq!(err, AuditError::Invariant(InvariantIssue::TooManyCommits));
}

#[test]
fn pr_head_sha_extra_page_fails() {
    let err = pr_head_sha(&vec!["a".to_owned()], true).unwrap_err();
    assert_eq!(err, AuditError::Invariant(InvariantIssue::ExtraPage));
}

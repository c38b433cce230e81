use pear_reviewer::changes::{changesets_for_commit, Changeset, CommitMetadata, PrReviewData,
    RepoChangeset};
use pear_reviewer::github::{Commit, PullRequest, RawReview, Review};
use pear_reviewer::remote::Remote;

fn gen_change_review() -> (Changeset, Vec<Review>) {
    (
        Changeset {
            commits: vec![
                CommitMetadata {
                    headline: "Commit 1".to_owned(),
                    link: "https://github.com/example/project/commit/00000000000000000000000000000001".to_owned(),
                },
                CommitMetadata {
                    headline: "Commit 2".to_owned(),
                    link: "https://github.com/example/project/commit/00000000000000000000000000000002".to_owned(),
                },
            ],
            pr_link: Some("https://github.com/example/project/pulls/1".to_owned()),
            approvals: Vec::new(),
        },
        vec![
            Review {
                approved: true,
                commit_id: "00000000000000000000000000000001".to_owned(),
                submitted_at: 1,
                user: "user1".to_owned(),
            },
            Review {
                approved: true,
                commit_id: "00000000000000000000000000000002".to_owned(),
                submitted_at: 2,
                user: "user2".to_owned(),
            },
            Review {
                approved: false,
                commit_id: "00000000000000000000000000000003".to_owned(),
                submitted_at: 3,
                user: "user3".to_owned(),
            },
        ],
    )
}

#[test]
fn collect_approved_reviews() {
    let (mut changeset, pr_reviews) = gen_change_review();
    changeset.collect_approved_reviews(&pr_reviews, &"00000000000000000000000000000002".to_owned());
    assert_eq!(changeset.approvals, vec!["user2"]);
}

#[test]
fn collect_approved_reviews_extra_commit() {
    let (mut changeset, pr_reviews) = gen_change_review();
    changeset.collect_approved_reviews(&pr_reviews, &"00000000000000000000000000000003".to_owned());
    assert_eq!(changeset.approvals, Vec::<String>::new());
}

// Running the reducer twice with the same inputs leaves the approval
// set untouched.
#[test]
fn collect_approved_reviews_idempotent() {
    let (mut changeset, pr_reviews) = gen_change_review();
    let head = "00000000000000000000000000000002".to_owned();
    changeset.collect_approved_reviews(&pr_reviews, &head);
    let first = changeset.approvals.clone();
    changeset.collect_approved_reviews(&pr_reviews, &head);
    assert_eq!(changeset.approvals, first);
}

// A user who requests changes and later approves the head commit is
// counted; the reverse order is not.
#[test]
fn last_review_wins() {
    let head = "00000000000000000000000000000002".to_owned();
    let (mut changeset, _) = gen_change_review();
    let reviews = vec![
        Review {
            approved: false,
            commit_id: head.clone(),
            submitted_at: 1,
            user: "alice".to_owned(),
        },
        Review {
            approved: true,
            commit_id: head.clone(),
            submitted_at: 2,
            user: "alice".to_owned(),
        },
    ];
    changeset.collect_approved_reviews(&reviews, &head);
    assert_eq!(changeset.approvals, vec!["alice"]);

    let (mut changeset, _) = gen_change_review();
    let reviews = vec![
        Review {
            approved: true,
            commit_id: head.clone(),
            submitted_at: 1,
            user: "alice".to_owned(),
        },
        Review {
            approved: false,
            commit_id: head.clone(),
            submitted_at: 2,
            user: "alice".to_owned(),
        },
    ];
    changeset.collect_approved_reviews(&reviews, &head);
    assert_eq!(changeset.approvals, Vec::<String>::new());
}

// An approval whose commit id is not the head commit never counts.
#[test]
fn approval_on_non_head_commit_is_excluded() {
    let head = "00000000000000000000000000000002".to_owned();
    let (mut changeset, _) = gen_change_review();
    let reviews = vec![Review {
        approved: true,
        commit_id: "00000000000000000000000000000001".to_owned(),
        submitted_at: 7,
        user: "bob".to_owned(),
    }];
    changeset.collect_approved_reviews(&reviews, &head);
    assert_eq!(changeset.approvals, Vec::<String>::new());
}

fn test_commit(sha: &str) -> Commit {
    Commit {
        html_url: format!("https://github.com/example/project/commit/{sha}"),
        message: "Testing test".to_owned(),
        sha: sha.to_owned(),
    }
}

fn test_repo_changeset() -> RepoChangeset {
    let remote = Remote::parse("https://github.com/example/project.git").unwrap();
    RepoChangeset::new(
        "project".to_owned(),
        remote,
        "base".to_owned(),
        "head".to_owned(),
    )
}

#[test]
fn analyze_commit_approved() {
    let sha = "00000000000000000000000000000002";
    let commit = test_commit(sha);
    let raw_reviews = vec![
        RawReview {
            approved: false,
            commit_id: Some("00000000000000000000000000000001".to_owned()),
            submitted_at: Some(42),
            user: Some("user1".to_owned()),
        },
        RawReview {
            approved: true,
            commit_id: Some(sha.to_owned()),
            submitted_at: Some(42),
            user: Some("user1".to_owned()),
        },
    ];
    let reviews = pear_reviewer::github::validate_reviews(&raw_reviews, false).unwrap();
    let prs = vec![PrReviewData {
        pr: PullRequest {
            number: 1,
            url: "https://github.com/example/project/pulls/1".to_owned(),
        },
        reviews,
        head_sha: sha.to_owned(),
    }];
    let changeset = changesets_for_commit(&commit, &prs);
    assert_eq!(changeset.len(), 1);
    assert_eq!(changeset[0].approvals, vec!["user1".to_owned()]);
    assert_eq!(changeset[0].commits.len(), 1);
    assert_eq!(changeset[0].commits[0].headline, "Testing test");
    assert_eq!(
        changeset[0].commits[0].link,
        "https://github.com/example/project/commit/00000000000000000000000000000002"
    );
    assert_eq!(
        changeset[0].pr_link,
        Some("https://github.com/example/project/pulls/1".to_owned())
    );
}

#[test]
fn analyze_commit_none() {
    let sha = "00000000000000000000000000000002";
    let commit = test_commit(sha);
    let raw_reviews = vec![RawReview {
        approved: false,
        commit_id: Some("00000000000000000000000000000001".to_owned()),
        submitted_at: Some(42),
        user: Some("user1".to_owned()),
    }];
    let reviews = pear_reviewer::github::validate_reviews(&raw_reviews, false).unwrap();
    let prs = vec![PrReviewData {
        pr: PullRequest {
            number: 1,
            url: "https://github.com/example/project/pulls/2".to_owned(),
        },
        reviews,
        head_sha: "00000000000000000000000000000003".to_owned(),
    }];
    let changeset = changesets_for_commit(&commit, &prs);
    assert_eq!(changeset.len(), 1);
    assert_eq!(changeset[0].approvals, Vec::<String>::new());
    assert_eq!(changeset[0].commits.len(), 1);
    assert_eq!(changeset[0].commits[0].headline, "Testing test");
    assert_eq!(
        changeset[0].commits[0].link,
        "https://github.com/example/project/commit/00000000000000000000000000000002"
    );
    assert_eq!(
        changeset[0].pr_link,
        Some("https://github.com/example/project/pulls/2".to_owned())
    );
}

// Two commits with no associated pull request stay two separate
// standalone changesets with empty approvals.
#[test]
fn standalone_commits_never_merge() {
    let mut repo = test_repo_changeset();
    let first = changesets_for_commit(&test_commit("0000000000000000000000000000000a"), &vec![]);
    let second = changesets_for_commit(&test_commit("0000000000000000000000000000000b"), &vec![]);
    repo.merge_changesets(&first);
    repo.merge_changesets(&second);
    assert_eq!(repo.changes.len(), 2);
    assert_eq!(repo.changes[0].pr_link, None);
    assert_eq!(repo.changes[1].pr_link, None);
    assert_eq!(repo.changes[0].approvals, Vec::<String>::new());
    assert_eq!(repo.changes[1].approvals, Vec::<String>::new());
    assert_ne!(repo.changes[0].commits[0].link, repo.changes[1].commits[0].link);
}

// Two commits mapping to the same pull-request URL merge into one
// changeset holding both commits, with no duplicate approver even
// though each commit's analysis found the same one.
#[test]
fn commits_of_one_pull_request_group() {
    let url = "https://github.com/example/project/pulls/9".to_owned();
    let head = "0000000000000000000000000000000b";
    let reviews = vec![Review {
        approved: true,
        commit_id: head.to_owned(),
        submitted_at: 5,
        user: "carol".to_owned(),
    }];
    let mut incoming = Vec::new();
    for sha in ["0000000000000000000000000000000a", "0000000000000000000000000000000b"] {
        let prs = vec![PrReviewData {
            pr: PullRequest { number: 9, url: url.clone() },
            reviews: reviews.clone(),
            head_sha: head.to_owned(),
        }];
        for c in changesets_for_commit(&test_commit(sha), &prs) {
            incoming.push(c);
        }
    }
    let mut repo = test_repo_changeset();
    repo.merge_changesets(&incoming);
    assert_eq!(repo.changes.len(), 1);
    assert_eq!(repo.changes[0].pr_link, Some(url));
    assert_eq!(repo.changes[0].commits.len(), 2);
    assert_eq!(
        repo.changes[0].commits[0].link,
        "https://github.com/example/project/commit/0000000000000000000000000000000a"
    );
    assert_eq!(
        repo.changes[0].commits[1].link,
        "https://github.com/example/project/commit/0000000000000000000000000000000b"
    );
    assert_eq!(repo.changes[0].approvals, vec!["carol".to_owned()]);
}

#[test]
fn commit_metadata_headline_is_first_line() {
    let commit = Commit {
        html_url: "https://example.com/c/1".to_owned(),
        message: "First line\nsecond line\nthird".to_owned(),
        sha: "1".to_owned(),
    };
    let meta = CommitMetadata::new(&commit);
    assert_eq!(meta.headline, "First line");
    assert_eq!(meta.link, "https://example.com/c/1");
}

#[test]
fn commit_metadata_of_empty_message() {
    let commit = Commit {
        html_url: "https://example.com/c/2".to_owned(),
        message: String::new(),
        sha: "2".to_owned(),
    };
    let meta = CommitMetadata::new(&commit);
    assert_eq!(meta.headline, "");
}

//! Provider-side data records: commits, pull requests and reviews, both in
//! the raw shape a provider response carries (where fields may be absent)
//! and in the validated shape the analysis works on.
use vstd::prelude::*;

use crate::errors::{AuditError, DataIssue, InvariantIssue};

verus! {

/// A commit returned by the provider's compare operation.
#[derive(Debug)]
pub struct Commit {
    pub html_url: String,
    pub message: String,
    pub sha: String,
}

/// The mathematical contents of a `Commit`.
#[verifier::ext_equal]
pub struct CommitModel {
    pub html_url: Seq<char>,
    pub message: Seq<char>,
    pub sha: Seq<char>,
}

impl View for Commit {
    type V = CommitModel;

    open spec fn view(&self) -> CommitModel {
        CommitModel { html_url: self.html_url@, message: self.message@, sha: self.sha@ }
    }
}

impl DeepView for Commit {
    type V = CommitModel;

    open spec fn deep_view(&self) -> CommitModel {
        self.view()
    }
}

impl Clone for Commit {
    fn clone(&self) -> (r: Self)
        ensures
            r == *self,
    {
        Commit {
            html_url: self.html_url.clone(),
            message: self.message.clone(),
            sha: self.sha.clone(),
        }
    }
}

/// A pull request associated with a commit.
#[derive(Debug)]
pub struct PullRequest {
    pub number: u64,
    pub url: String,
}

/// The mathematical contents of a `PullRequest`.
#[verifier::ext_equal]
pub struct PullRequestModel {
    pub number: u64,
    pub url: Seq<char>,
}

impl View for PullRequest {
    type V = PullRequestModel;

    open spec fn view(&self) -> PullRequestModel {
        PullRequestModel { number: self.number, url: self.url@ }
    }
}

impl DeepView for PullRequest {
    type V = PullRequestModel;

    open spec fn deep_view(&self) -> PullRequestModel {
        self.view()
    }
}

impl Clone for PullRequest {
    fn clone(&self) -> (r: Self)
        ensures
            r == *self,
    {
        PullRequest { number: self.number, url: self.url.clone() }
    }
}

/// A validated review record: every field the algorithm depends on is
/// present.
#[derive(Debug)]
pub struct Review {
    pub approved: bool,
    pub commit_id: String,
    pub submitted_at: i64,
    pub user: String,
}

/// The mathematical contents of a `Review`.
#[verifier::ext_equal]
pub struct ReviewModel {
    pub approved: bool,
    pub commit_id: Seq<char>,
    pub submitted_at: i64,
    pub user: Seq<char>,
}

impl View for Review {
    type V = ReviewModel;

    open spec fn view(&self) -> ReviewModel {
        ReviewModel {
            approved: self.approved,
            commit_id: self.commit_id@,
            submitted_at: self.submitted_at,
            user: self.user@,
        }
    }
}

impl DeepView for Review {
    type V = ReviewModel;

    open spec fn deep_view(&self) -> ReviewModel {
        self.view()
    }
}

impl Clone for Review {
    fn clone(&self) -> (r: Self)
        ensures
            r == *self,
    {
        Review {
            approved: self.approved,
            commit_id: self.commit_id.clone(),
            submitted_at: self.submitted_at,
            user: self.user.clone(),
        }
    }
}

/// A pull request record as the provider hands it over: the HTML link may
/// be absent.
#[derive(Debug)]
pub struct RawPullRequest {
    pub number: u64,
    pub html_url: Option<String>,
}

/// A review record as the provider hands it over: any of the fields the
/// algorithm depends on may be absent.
#[derive(Debug)]
pub struct RawReview {
    pub approved: bool,
    pub commit_id: Option<String>,
    pub submitted_at: Option<i64>,
    pub user: Option<String>,
}

/// Whether a raw review carries every field the algorithm depends on.
pub open spec fn raw_review_complete(r: RawReview) -> bool {
    &&& r.commit_id is Some
    &&& r.submitted_at is Some
    &&& r.user is Some
}

/// Which field of an incomplete raw review is reported missing: the
/// commit id is checked first, then the submission time, then the author.
pub open spec fn review_issue(r: RawReview) -> DataIssue {
    if r.commit_id is None {
        DataIssue::ReviewWithoutCommitId
    } else if r.submitted_at is None {
        DataIssue::ReviewWithoutSubmittedAt
    } else {
        DataIssue::ReviewWithoutUser
    }
}

/// The validated form of a complete raw review.
pub open spec fn raw_review_model(r: RawReview) -> ReviewModel {
    ReviewModel {
        approved: r.approved,
        commit_id: r.commit_id->0@,
        submitted_at: r.submitted_at->0,
        user: r.user->0@,
    }
}

/// The validated forms of a sequence of complete raw reviews.
pub open spec fn raw_review_models(s: Seq<RawReview>) -> Seq<ReviewModel> {
    s.map_values(|r: RawReview| raw_review_model(r))
}

/// Ascending order of submission time.
pub open spec fn sorted_by_submitted_at(s: Seq<ReviewModel>) -> bool {
    forall|i: int, j: int| 0 <= i < j < s.len() ==> s[i].submitted_at <= s[j].submitted_at
}

/// `r` placed after every review of `s` whose submission time is not
/// later, so that reviews with equal submission times keep their
/// relative order.
pub open spec fn insert_review(s: Seq<ReviewModel>, r: ReviewModel) -> Seq<ReviewModel>
    decreases s.len(),
{
    if s.len() == 0 {
        seq![r]
    } else if s.last().submitted_at <= r.submitted_at {
        s.push(r)
    } else {
        insert_review(s.drop_last(), r).push(s.last())
    }
}

/// A stable ascending sort of reviews by submission time.
pub open spec fn sort_reviews_spec(s: Seq<ReviewModel>) -> Seq<ReviewModel>
    decreases s.len(),
{
    if s.len() == 0 {
        Seq::empty()
    } else {
        insert_review(sort_reviews_spec(s.drop_last()), s.last())
    }
}

/// Inserting at the boundary between the reviews submitted no later than
/// `r` and those submitted strictly later realizes `insert_review`.
pub proof fn lemma_insert_review_at(s: Seq<ReviewModel>, r: ReviewModel, p: int)
    requires
        0 <= p <= s.len(),
        forall|q: int| p <= q < s.len() ==> s[q].submitted_at > r.submitted_at,
        p > 0 ==> s[p - 1].submitted_at <= r.submitted_at,
    ensures
        insert_review(s, r) == s.subrange(0, p) + seq![r] + s.subrange(p, s.len() as int),
    decreases s.len(),
{
    if p == s.len() {
        if s.len() == 0 {
            assert(insert_review(s, r) =~= s.subrange(0, p) + seq![r] + s.subrange(
                p,
                s.len() as int,
            ));
        } else {
            assert(s.last().submitted_at <= r.submitted_at);
            assert(insert_review(s, r) =~= s.subrange(0, p) + seq![r] + s.subrange(
                p,
                s.len() as int,
            ));
        }
    } else {
        assert(s[s.len() - 1].submitted_at > r.submitted_at);
        let dl = s.drop_last();
        lemma_insert_review_at(dl, r, p);
        assert(insert_review(s, r) =~= s.subrange(0, p) + seq![r] + s.subrange(
            p,
            s.len() as int,
        ));
    }
}

/// Inserting a review adds exactly that review: the result is one longer
/// and holds the same reviews plus `r`.
pub proof fn lemma_insert_review_multiset(s: Seq<ReviewModel>, r: ReviewModel)
    ensures
        insert_review(s, r).len() == s.len() + 1,
        insert_review(s, r).to_multiset() == s.to_multiset().insert(r),
    decreases s.len(),
{
    broadcast use vstd::seq_lib::group_to_multiset_ensures;

    if s.len() == 0 {
        assert(seq![r] =~= Seq::<ReviewModel>::empty().push(r));
        assert(Seq::<ReviewModel>::empty().push(r).to_multiset() =~= Seq::<
            ReviewModel,
        >::empty().to_multiset().insert(r));
    } else if s.last().submitted_at <= r.submitted_at {
        assert(s.push(r).to_multiset() =~= s.to_multiset().insert(r));
    } else {
        let dl = s.drop_last();
        lemma_insert_review_multiset(dl, r);
        assert(dl.push(s.last()) =~= s);
        assert(insert_review(s, r).to_multiset() =~= insert_review(
            dl,
            r,
        ).to_multiset().insert(s.last()));
        assert(dl.to_multiset().insert(s.last()) =~= s.to_multiset());
        assert(insert_review(s, r).to_multiset() =~= s.to_multiset().insert(r));
    }
}

/// Inserting into a sorted review sequence keeps it sorted.
pub proof fn lemma_insert_review_sorted(s: Seq<ReviewModel>, r: ReviewModel)
    requires
        sorted_by_submitted_at(s),
    ensures
        sorted_by_submitted_at(insert_review(s, r)),
    decreases s.len(),
{
    broadcast use vstd::seq_lib::group_to_multiset_ensures;

    if s.len() == 0 {
    } else if s.last().submitted_at <= r.submitted_at {
    } else {
        let dl = s.drop_last();
        assert(sorted_by_submitted_at(dl));
        lemma_insert_review_sorted(dl, r);
        lemma_insert_review_multiset(dl, r);
        let t = insert_review(dl, r);
        assert forall|i: int| 0 <= i < t.len() implies t[i].submitted_at
            <= s.last().submitted_at by {
            assert(t.contains(t[i]));
            assert(t.to_multiset().count(t[i]) > 0);
            if t[i] != r {
                assert(dl.to_multiset().count(t[i]) > 0);
                assert(dl.contains(t[i]));
            }
        }
    }
}

/// Sorting yields an ascending sequence.
pub proof fn lemma_sort_reviews_sorted(s: Seq<ReviewModel>)
    ensures
        sorted_by_submitted_at(sort_reviews_spec(s)),
    decreases s.len(),
{
    if s.len() > 0 {
        lemma_sort_reviews_sorted(s.drop_last());
        lemma_insert_review_sorted(sort_reviews_spec(s.drop_last()), s.last());
    }
}

/// Sorting neither loses nor invents reviews.
pub proof fn lemma_sort_reviews_permutes(s: Seq<ReviewModel>)
    ensures
        sort_reviews_spec(s).to_multiset() == s.to_multiset(),
        sort_reviews_spec(s).len() == s.len(),
    decreases s.len(),
{
    broadcast use vstd::seq_lib::group_to_multiset_ensures;

    if s.len() > 0 {
        let dl = s.drop_last();
        lemma_sort_reviews_permutes(dl);
        lemma_insert_review_multiset(sort_reviews_spec(dl), s.last());
        assert(dl.push(s.last()) =~= s);
        assert(dl.push(s.last()).to_multiset() =~= dl.to_multiset().insert(s.last()));
    }
}

/// Turns the raw reviews of one response page into validated reviews,
/// sorted ascending by submission time (a stable sort: reviews with equal
/// submission times keep their response order).
///
/// Fails when the response spans more than one page, or when any review
/// is missing its commit id, submission time or author; the first
/// incomplete review in response order decides the reported field.
pub fn validate_reviews(raw: &Vec<RawReview>, has_next_page: bool) -> (r: Result<
    Vec<Review>,
    AuditError,
>)
    ensures
        has_next_page ==> (r matches Err(e) && e == AuditError::Invariant(
            InvariantIssue::ExtraPage,
        )),
        !has_next_page && (forall|i: int|
            0 <= i < raw@.len() ==> raw_review_complete(raw@[i])) ==> (r matches Ok(out)
            && out.deep_view() == sort_reviews_spec(raw_review_models(raw@))
            && sorted_by_submitted_at(out.deep_view())),
        !has_next_page && !(forall|i: int|
            0 <= i < raw@.len() ==> raw_review_complete(raw@[i])) ==> (r matches Err(e)
            && exists|j: int|
            0 <= j < raw@.len() && !raw_review_complete(raw@[j]) && (forall|k: int|
                0 <= k < j ==> raw_review_complete(raw@[k])) && e == AuditError::Data(
                review_issue(raw@[j]),
            )),
{
    if has_next_page {
        return Err(AuditError::Invariant(InvariantIssue::ExtraPage));
    }
    let n = raw.len();
    let mut out: Vec<Review> = Vec::new();
    let mut k: usize = 0;
    while k < n
        invariant
            !has_next_page,
            n == raw@.len(),
            0 <= k <= n,
            forall|i: int| 0 <= i < k ==> raw_review_complete(raw@[i]),
            out.deep_view() == sort_reviews_spec(raw_review_models(raw@.take(k as int))),
        decreases n - k,
    {
        let rr = &raw[k];
        proof {
            if !raw_review_complete(raw@[k as int]) {
                assert(exists|j: int|
                    0 <= j < raw@.len() && !raw_review_complete(raw@[j]) && (forall|i: int|
                        0 <= i < j ==> raw_review_complete(raw@[i]))
                        && AuditError::Data(review_issue(raw@[j])) == AuditError::Data(
                        review_issue(raw@[k as int]),
                    )) by {
                    assert(!raw_review_complete(raw@[k as int]) && (forall|i: int|
                        0 <= i < k as int ==> raw_review_complete(raw@[i])));
                }
            }
        }
        let commit_id = match &rr.commit_id {
            Some(c) => c.clone(),
            None => {
                return Err(AuditError::Data(DataIssue::ReviewWithoutCommitId));
            },
        };
        let submitted_at = match &rr.submitted_at {
            Some(t) => *t,
            None => {
                return Err(AuditError::Data(DataIssue::ReviewWithoutSubmittedAt));
            },
        };
        let user = match &rr.user {
            Some(u) => u.clone(),
            None => {
                return Err(AuditError::Data(DataIssue::ReviewWithoutUser));
            },
        };
        let rv = Review { approved: rr.approved, commit_id, submitted_at, user };
        assert(rv@ == raw_review_model(raw@[k as int]));
        // find the insertion point: everything at or after `p` was
        // submitted strictly later than `rv`
        let mut p: usize = out.len();
        while p > 0 && out[p - 1].submitted_at > rv.submitted_at
            invariant
                0 <= p <= out@.len(),
                forall|q: int|
                    p <= q < out@.len() ==> out.deep_view()[q].submitted_at > rv@.submitted_at,
            decreases p,
        {
            p -= 1;
        }
        proof {
            lemma_insert_review_at(out.deep_view(), rv@, p as int);
        }
        let ghost pre = out.deep_view();
        out.insert(p, rv);
        proof {
            assert(out.deep_view() =~= pre.subrange(0, p as int) + seq![rv@] + pre.subrange(
                p as int,
                pre.len() as int,
            ));
            let models_k = raw_review_models(raw@.take(k as int));
            let models_k1 = raw_review_models(raw@.take(k as int + 1));
            assert(models_k1 =~= models_k.push(raw_review_model(raw@[k as int])));
            assert(models_k1.drop_last() =~= models_k);
            assert(out.deep_view() == sort_reviews_spec(models_k1));
        }
        k += 1;
    }
    proof {
        assert(raw@.take(n as int) =~= raw@);
        lemma_sort_reviews_sorted(raw_review_models(raw@));
    }
    Ok(out)
}

/// Turns the raw pull requests associated with a commit into validated
/// pull-request references.
///
/// Fails when the response spans more than one page, or when any pull
/// request carries no HTML link.
pub fn validate_associated_prs(raw: &Vec<RawPullRequest>, has_next_page: bool) -> (r: Result<
    Vec<PullRequest>,
    AuditError,
>)
    ensures
        has_next_page ==> (r matches Err(e) && e == AuditError::Invariant(
            InvariantIssue::ExtraPage,
        )),
        !has_next_page && (forall|i: int| 0 <= i < raw@.len() ==> raw@[i].html_url is Some) ==> (
        r matches Ok(out) && out@.len() == raw@.len() && (forall|i: int|
            0 <= i < raw@.len() ==> out.deep_view()[i].number == raw@[i].number
                && out.deep_view()[i].url == raw@[i].html_url->0@)),
        !has_next_page && !(forall|i: int| 0 <= i < raw@.len() ==> raw@[i].html_url is Some) ==> (
        r matches Err(e) && e == AuditError::Data(DataIssue::PrWithoutHtmlUrl)),
{
    if has_next_page {
        return Err(AuditError::Invariant(InvariantIssue::ExtraPage));
    }
    let n = raw.len();
    let mut out: Vec<PullRequest> = Vec::new();
    let mut k: usize = 0;
    while k < n
        invariant
            !has_next_page,
            n == raw@.len(),
            0 <= k <= n,
            out@.len() == k,
            forall|i: int| 0 <= i < k ==> raw@[i].html_url is Some,
            forall|i: int|
                0 <= i < k ==> out.deep_view()[i].number == raw@[i].number
                    && out.deep_view()[i].url == raw@[i].html_url->0@,
        decreases n - k,
    {
        let rr = &raw[k];
        let url = match &rr.html_url {
            Some(u) => u.clone(),
            None => {
                return Err(AuditError::Data(DataIssue::PrWithoutHtmlUrl));
            },
        };
        out.push(PullRequest { number: rr.number, url });
        k += 1;
    }
    Ok(out)
}

/// The head commit of a pull request: the last entry of the pull
/// request's own commit list.
///
/// Fails when the response spans more than one page, when the list
/// exceeds the one-page commit cap, or when the pull request has no
/// commits at all.
pub fn pr_head_sha(shas: &Vec<String>, has_next_page: bool) -> (r: Result<String, AuditError>)
    ensures
        has_next_page ==> (r matches Err(e) && e == AuditError::Invariant(
            InvariantIssue::ExtraPage,
        )),
        !has_next_page && shas@.len() > 250 ==> (r matches Err(e) && e == AuditError::Invariant(
            InvariantIssue::TooManyCommits,
        )),
        !has_next_page && shas@.len() == 0 ==> (r matches Err(e) && e == AuditError::Data(
            DataIssue::PrWithoutCommits,
        )),
        !has_next_page && 0 < shas@.len() <= 250 ==> (r matches Ok(s) && s@ == shas@.last()@),
{
    if has_next_page {
        return Err(AuditError::Invariant(InvariantIssue::ExtraPage));
    }
    if shas.len() > 250 {
        return Err(AuditError::Invariant(InvariantIssue::TooManyCommits));
    }
    if shas.len() == 0 {
        return Err(AuditError::Data(DataIssue::PrWithoutCommits));
    }
    Ok(shas[shas.len() - 1].clone())
}

} // verus!

//! The changeset engine: logical review units (one per pull request, or
//! one per unlinked commit), the approval reducer that resolves the set
//! of users whose latest verdict approves a unit's head commit, and the
//! merge step that folds per-commit results into a repository's
//! changeset list.
use vstd::prelude::*;

use crate::github::{Commit, PullRequest, Review, ReviewModel};
use crate::remote::Remote;
use crate::strings::{chars_range_to_string, contains_str, find_char, lemma_find_char, str_eq,
    str_to_chars};

verus! {

/// No user name occurs twice.
pub open spec fn nodup(s: Seq<Seq<char>>) -> bool {
    forall|i: int, j: int| 0 <= i < j < s.len() ==> s[i] != s[j]
}

/// The first line of a commit message: everything up to the first line
/// break, or the whole message when it has none.
pub open spec fn headline_of(message: Seq<char>) -> Seq<char> {
    if find_char(message, '\n') == -1 {
        message
    } else {
        message.take(find_char(message, '\n'))
    }
}

/// What a commit record contributes to a changeset: its headline and its
/// permalink.
#[derive(Debug)]
pub struct CommitMetadata {
    pub headline: String,
    pub link: String,
}

/// The mathematical contents of a `CommitMetadata`.
#[verifier::ext_equal]
pub struct CommitMetadataModel {
    pub headline: Seq<char>,
    pub link: Seq<char>,
}

impl View for CommitMetadata {
    type V = CommitMetadataModel;

    open spec fn view(&self) -> CommitMetadataModel {
        CommitMetadataModel { headline: self.headline@, link: self.link@ }
    }
}

impl DeepView for CommitMetadata {
    type V = CommitMetadataModel;

    open spec fn deep_view(&self) -> CommitMetadataModel {
        self.view()
    }
}

impl Clone for CommitMetadata {
    fn clone(&self) -> (r: Self)
        ensures
            r == *self,
    {
        CommitMetadata { headline: self.headline.clone(), link: self.link.clone() }
    }
}

/// The metadata a commit contributes: the first line of its message, and
/// its permalink.
pub open spec fn commit_metadata_of(c: crate::github::CommitModel) -> CommitMetadataModel {
    CommitMetadataModel { headline: headline_of(c.message), link: c.html_url }
}

impl CommitMetadata {
    /// Derives the metadata once from a provider commit record.
    pub fn new(commit: &Commit) -> (r: Self)
        ensures
            r@ == commit_metadata_of(commit@),
    {
        let chars = str_to_chars(commit.message.as_str());
        let n = chars.len();
        let mut p: usize = 0;
        while p < n && chars[p] != '\n'
            invariant
                n == chars@.len(),
                0 <= p <= n,
                chars@ == commit.message@,
                forall|q: int| 0 <= q < p ==> chars@[q] != '\n',
            decreases n - p,
        {
            p += 1;
        }
        proof {
            lemma_find_char(commit.message@, '\n');
            if p == n {
                assert(find_char(commit.message@, '\n') == -1);
            } else {
                assert(commit.message@[p as int] == '\n');
                assert(find_char(commit.message@, '\n') == p as int);
            }
        }
        let headline = chars_range_to_string(&chars, 0, p);
        proof {
            assert(chars@.subrange(0, p as int) =~= commit.message@.take(p as int));
            if p == n {
                assert(commit.message@.take(p as int) =~= commit.message@);
            }
        }
        CommitMetadata { headline, link: commit.html_url.clone() }
    }
}

/// A logical review unit: either all commits and approvals tied to one
/// pull request, or a single commit with no pull request.
#[derive(Debug)]
pub struct Changeset {
    pub commits: Vec<CommitMetadata>,
    pub pr_link: Option<String>,
    pub approvals: Vec<String>,
}

/// The mathematical contents of a `Changeset`.
#[verifier::ext_equal]
pub struct ChangesetModel {
    pub commits: Seq<CommitMetadataModel>,
    pub pr_link: Option<Seq<char>>,
    pub approvals: Seq<Seq<char>>,
}

impl View for Changeset {
    type V = ChangesetModel;

    open spec fn view(&self) -> ChangesetModel {
        ChangesetModel {
            commits: self.commits.deep_view(),
            pr_link: self.pr_link.deep_view(),
            approvals: self.approvals.deep_view(),
        }
    }
}

impl DeepView for Changeset {
    type V = ChangesetModel;

    open spec fn deep_view(&self) -> ChangesetModel {
        self.view()
    }
}

impl Clone for Changeset {
    fn clone(&self) -> (r: Self)
        ensures
            r@ == self@,
            r.wf() == self.wf(),
    {
        let r = Changeset {
            commits: self.commits.clone(),
            pr_link: self.pr_link.clone(),
            approvals: self.approvals.clone(),
        };
        proof {
            assert(r.commits.deep_view() =~= self.commits.deep_view());
            assert(r.pr_link.deep_view() =~= self.pr_link.deep_view());
            assert(r.approvals.deep_view() =~= self.approvals.deep_view());
            assert(r@ =~= self@);
        }
        r
    }
}

/// The most recent review `user` submitted (the last one in submission
/// order, restricted to indices at or after `from`) approves exactly the
/// head commit.
pub open spec fn is_approver_from(
    reviews: Seq<ReviewModel>,
    head: Seq<char>,
    user: Seq<char>,
    from: int,
) -> bool {
    exists|i: int|
        from <= i < reviews.len() && (#[trigger] reviews[i]).user == user && reviews[i].approved
            && reviews[i].commit_id == head && (forall|j: int|
            i < j < reviews.len() ==> (#[trigger] reviews[j]).user != user)
}

/// Whether `user` counts as an approver of `head` under the review
/// history `reviews` (sorted ascending by submission time): their most
/// recent review approves exactly that commit.
pub open spec fn is_approver(reviews: Seq<ReviewModel>, head: Seq<char>, user: Seq<char>) -> bool {
    is_approver_from(reviews, head, user, 0)
}

impl Changeset {
    /// The approvals list never holds a user name twice.
    pub open spec fn wf(&self) -> bool {
        nodup(self@.approvals)
    }

    /// Folds a pull request's review history (sorted ascending by
    /// submission time) into this changeset's approval set: a user is
    /// added exactly when their most recent review approves the head
    /// commit. Earlier reviews of the same user are superseded, reviews
    /// of other commits never count, and no user is ever added twice.
    pub fn collect_approved_reviews(&mut self, pr_reviews: &Vec<Review>, head_sha: &String)
        requires
            old(self).wf(),
        ensures
            final(self).wf(),
            final(self).commits == old(self).commits,
            final(self).pr_link == old(self).pr_link,
            old(self)@.approvals.is_prefix_of(final(self)@.approvals),
            forall|u: Seq<char>|
                #![trigger final(self)@.approvals.contains(u)]
                #![trigger is_approver(pr_reviews.deep_view(), head_sha@, u)]
                final(self)@.approvals.contains(u) <==> (old(self)@.approvals.contains(u)
                    || is_approver(pr_reviews.deep_view(), head_sha@, u)),
    {
        let ghost rv = pr_reviews.deep_view();
        let ghost head = head_sha@;
        let ghost old_approvals = self.approvals.deep_view();
        let n = pr_reviews.len();
        let mut seen: Vec<String> = Vec::new();
        let mut idx: usize = n;
        // walk the history from the most recent review to the oldest
        while idx > 0
            invariant
                n == pr_reviews@.len(),
                rv == pr_reviews.deep_view(),
                head == head_sha@,
                0 <= idx <= n,
                self.commits == old(self).commits,
                self.pr_link == old(self).pr_link,
                old_approvals == old(self).approvals.deep_view(),
                nodup(old_approvals),
                nodup(self.approvals.deep_view()),
                old_approvals.is_prefix_of(self.approvals.deep_view()),
                forall|k: int|
                    idx <= k < n ==> seen.deep_view().contains((#[trigger] rv[k]).user),
                forall|j: int|
                    0 <= j < seen.deep_view().len() ==> (exists|k: int|
                        idx <= k < n && rv[k].user == (#[trigger] seen.deep_view()[j])),
                forall|u: Seq<char>|
                    #![trigger self.approvals.deep_view().contains(u)]
                    #![trigger is_approver_from(rv, head, u, idx as int)]
                    self.approvals.deep_view().contains(u) <==> (old_approvals.contains(u)
                        || is_approver_from(rv, head, u, idx as int)),
            decreases idx,
        {
            idx -= 1;
            let r = &pr_reviews[idx];
            proof {
                assert(r@ == rv[idx as int]);
            }
            let ghost u_r = rv[idx as int].user;
            if contains_str(&seen, r.user.as_str()) {
                // only the most recent review of any user counts
                proof {
                    let j = choose|j: int|
                        0 <= j < seen.deep_view().len() && seen.deep_view()[j] == u_r;
                    assert(exists|k: int| idx + 1 <= k < n && rv[k].user == u_r);
                    assert forall|u: Seq<char>|
                        is_approver_from(rv, head, u, idx as int)
                            == is_approver_from(rv, head, u, idx as int + 1) by {
                        if is_approver_from(rv, head, u, idx as int) {
                            let i = choose|i: int|
                                idx <= i < rv.len() && rv[i].user == u && rv[i].approved
                                    && rv[i].commit_id == head && (forall|j2: int|
                                    i < j2 < rv.len() ==> (#[trigger] rv[j2]).user != u);
                            if i == idx {
                                let k = choose|k: int| idx + 1 <= k < n && rv[k].user == u_r;
                                assert(rv[k].user != u);
                                assert(false);
                            }
                            assert(is_approver_from(rv, head, u, idx as int + 1));
                        }
                        if is_approver_from(rv, head, u, idx as int + 1) {
                            let i = choose|i: int|
                                idx + 1 <= i < rv.len() && rv[i].user == u && rv[i].approved
                                    && rv[i].commit_id == head && (forall|j2: int|
                                    i < j2 < rv.len() ==> (#[trigger] rv[j2]).user != u);
                            assert(is_approver_from(rv, head, u, idx as int));
                        }
                    }
                }
                continue;
            }
            // first (most recent) review of this user
            proof {
                assert forall|k: int| idx < k < n implies (#[trigger] rv[k]).user != u_r by {
                    if rv[k].user == u_r {
                        assert(seen.deep_view().contains(rv[k].user));
                    }
                }
            }
            let ghost seen_pre = seen.deep_view();
            seen.push(r.user.clone());
            proof {
                assert(seen.deep_view() =~= seen_pre.push(u_r));
                assert forall|k: int|
                    idx <= k < n implies seen.deep_view().contains((#[trigger] rv[k]).user) by {
                    if k == idx {
                        assert(seen.deep_view()[seen_pre.len() as int] == u_r);
                    } else {
                        assert(seen_pre.contains(rv[k].user));
                        let j = choose|j: int| 0 <= j < seen_pre.len() && seen_pre[j] == rv[k].user;
                        assert(seen.deep_view()[j] == rv[k].user);
                    }
                }
                assert forall|j: int| 0 <= j < seen.deep_view().len() implies (exists|k: int|
                    idx <= k < n && rv[k].user == (#[trigger] seen.deep_view()[j])) by {
                    if j < seen_pre.len() {
                        assert(seen_pre[j] == seen.deep_view()[j]);
                    } else {
                        assert(seen.deep_view()[j] == u_r);
                        assert(rv[idx as int].user == u_r);
                    }
                }
            }
            let head_matches = str_eq(r.commit_id.as_str(), head_sha.as_str());
            let counts = head_matches && r.approved;
            proof {
                if counts {
                    // this review is the user's verdict, and it approves the head
                    assert(is_approver_from(rv, head, u_r, idx as int));
                } else {
                    assert(!is_approver_from(rv, head, u_r, idx as int)) by {
                        if is_approver_from(rv, head, u_r, idx as int) {
                            let i = choose|i: int|
                                idx <= i < rv.len() && rv[i].user == u_r && rv[i].approved
                                    && rv[i].commit_id == head && (forall|j2: int|
                                    i < j2 < rv.len() ==> (#[trigger] rv[j2]).user != u_r);
                            assert(i == idx);
                            assert(false);
                        }
                    }
                }
                assert forall|u: Seq<char>|
                    u != u_r implies is_approver_from(rv, head, u, idx as int)
                    == is_approver_from(rv, head, u, idx as int + 1) by {
                    if is_approver_from(rv, head, u, idx as int) {
                        let i = choose|i: int|
                            idx <= i < rv.len() && rv[i].user == u && rv[i].approved
                                && rv[i].commit_id == head && (forall|j2: int|
                                i < j2 < rv.len() ==> (#[trigger] rv[j2]).user != u);
                        assert(i != idx);
                        assert(is_approver_from(rv, head, u, idx as int + 1));
                    }
                    if is_approver_from(rv, head, u, idx as int + 1) {
                        let i = choose|i: int|
                            idx + 1 <= i < rv.len() && rv[i].user == u && rv[i].approved
                                && rv[i].commit_id == head && (forall|j2: int|
                                i < j2 < rv.len() ==> (#[trigger] rv[j2]).user != u);
                        assert(is_approver_from(rv, head, u, idx as int));
                    }
                }
                // the user's own verdict on the previous suffix never holds:
                // there is no later review of this user
                assert(!is_approver_from(rv, head, u_r, idx as int + 1)) by {
                    if is_approver_from(rv, head, u_r, idx as int + 1) {
                        let i = choose|i: int|
                            idx + 1 <= i < rv.len() && rv[i].user == u_r && rv[i].approved
                                && rv[i].commit_id == head && (forall|j2: int|
                                i < j2 < rv.len() ==> (#[trigger] rv[j2]).user != u_r);
                        assert(rv[i].user != u_r);
                        assert(false);
                    }
                }
            }
            if counts {
                if !contains_str(&self.approvals, r.user.as_str()) {
                    let ghost app_pre = self.approvals.deep_view();
                    self.approvals.push(r.user.clone());
                    proof {
                        assert(self.approvals.deep_view() =~= app_pre.push(u_r));
                        assert(nodup(self.approvals.deep_view())) by {
                            assert forall|i: int, j: int|
                                0 <= i < j < self.approvals.deep_view().len() implies self
                                .approvals.deep_view()[i] != self.approvals.deep_view()[j] by {
                                if j == app_pre.len() {
                                    if self.approvals.deep_view()[i]
                                        == self.approvals.deep_view()[j] {
                                        assert(app_pre.contains(u_r));
                                    }
                                }
                            }
                        }
                        assert forall|u: Seq<char>|
                            self.approvals.deep_view().contains(u) <==> (old_approvals.contains(u)
                                || is_approver_from(rv, head, u, idx as int)) by {
                            if u == u_r {
                                assert(self.approvals.deep_view()[app_pre.len() as int] == u_r);
                                assert(self.approvals.deep_view().contains(u_r));
                            } else {
                                assert(self.approvals.deep_view().contains(u) == app_pre.contains(
                                    u,
                                )) by {
                                    if app_pre.contains(u) {
                                        let j = choose|j: int|
                                            0 <= j < app_pre.len() && app_pre[j] == u;
                                        assert(self.approvals.deep_view()[j] == u);
                                    }
                                    if self.approvals.deep_view().contains(u) {
                                        let j = choose|j: int|
                                            0 <= j < self.approvals.deep_view().len() && self
                                                .approvals.deep_view()[j] == u;
                                        assert(j < app_pre.len());
                                        assert(app_pre[j] == u);
                                    }
                                }
                            }
                        }
                    }
                }
            }
        }
    }
}

/// Running the approval reducer twice with the same review history and
/// head commit yields the same approval set as running it once: the
/// second run can add nobody new.
pub proof fn lemma_reducer_idempotent(
    a0: Seq<Seq<char>>,
    a1: Seq<Seq<char>>,
    a2: Seq<Seq<char>>,
    reviews: Seq<ReviewModel>,
    head: Seq<char>,
)
    requires
        forall|u: Seq<char>|
            #[trigger] a1.contains(u) <==> (a0.contains(u) || is_approver(reviews, head, u)),
        forall|u: Seq<char>|
            #[trigger] a2.contains(u) <==> (a1.contains(u) || is_approver(reviews, head, u)),
    ensures
        forall|u: Seq<char>| #[trigger] a2.contains(u) <==> a1.contains(u),
{
}

/// The verdict of a user is their most recent review, and nothing else:
/// when review `j` is the last one `user` submitted, that user counts as
/// an approver exactly if review `j` approves the head commit — whatever
/// their earlier reviews said.
pub proof fn lemma_last_review_wins(reviews: Seq<ReviewModel>, head: Seq<char>, j: int)
    requires
        0 <= j < reviews.len(),
        forall|k: int| j < k < reviews.len() ==> (#[trigger] reviews[k]).user != reviews[j].user,
    ensures
        is_approver(reviews, head, reviews[j].user) <==> (reviews[j].approved
            && reviews[j].commit_id == head),
{
    let user = reviews[j].user;
    if is_approver(reviews, head, user) {
        let i = choose|i: int|
            0 <= i < reviews.len() && reviews[i].user == user && reviews[i].approved
                && reviews[i].commit_id == head && (forall|k: int|
                i < k < reviews.len() ==> (#[trigger] reviews[k]).user != user);
        if i < j {
            assert(reviews[j].user != user);
            assert(false);
        }
        if i > j {
            assert(reviews[i].user != user);
            assert(false);
        }
        assert(i == j);
    }
    if reviews[j].approved && reviews[j].commit_id == head {
        assert(is_approver_from(reviews, head, user, 0));
    }
}

/// A review of a commit other than the head never counts: even an
/// approval is excluded when it targets a superseded commit.
pub proof fn lemma_head_sha_filter(reviews: Seq<ReviewModel>, head: Seq<char>, j: int)
    requires
        0 <= j < reviews.len(),
        forall|k: int| j < k < reviews.len() ==> (#[trigger] reviews[k]).user != reviews[j].user,
        reviews[j].commit_id != head,
    ensures
        !is_approver(reviews, head, reviews[j].user),
{
    lemma_last_review_wins(reviews, head, j);
}

/// Everything one associated pull request contributes to the analysis of
/// a commit: the pull request itself, its full review history (sorted
/// ascending by submission time), and its true head commit.
#[derive(Debug)]
pub struct PrReviewData {
    pub pr: PullRequest,
    pub reviews: Vec<Review>,
    pub head_sha: String,
}

/// The review units one commit gives rise to: one standalone unit when
/// the commit belongs to no pull request, else one unit per associated
/// pull request, holding exactly the users whose most recent review
/// approves that pull request's head commit.
pub fn changesets_for_commit(commit: &Commit, prs: &Vec<PrReviewData>) -> (r: Vec<Changeset>)
    ensures
        prs@.len() == 0 ==> r@.len() == 1 && r.deep_view()[0].commits == seq![
            commit_metadata_of(commit@),
        ] && r.deep_view()[0].pr_link is None && r.deep_view()[0].approvals == Seq::<
            Seq<char>,
        >::empty(),
        prs@.len() > 0 ==> r@.len() == prs@.len() && (forall|i: int|
            0 <= i < prs@.len() ==> (#[trigger] r.deep_view()[i]).commits == seq![
                commit_metadata_of(commit@),
            ] && r.deep_view()[i].pr_link == Some(prs@[i].pr.url@) && nodup(
                r.deep_view()[i].approvals,
            ) && (forall|u: Seq<char>|
                #![trigger r.deep_view()[i].approvals.contains(u)]
                r.deep_view()[i].approvals.contains(u) <==> is_approver(
                    prs@[i].reviews.deep_view(),
                    prs@[i].head_sha@,
                    u,
                ))),
{
    let change_commit = CommitMetadata::new(commit);
    let mut changes: Vec<Changeset> = Vec::new();
    if prs.len() == 0 {
        let commits = vec![change_commit];
        proof {
            assert(commits.deep_view() =~= seq![commit_metadata_of(commit@)]);
        }
        changes.push(Changeset { commits, pr_link: None, approvals: Vec::new() });
        proof {
            assert(changes.deep_view()[0].approvals =~= Seq::<Seq<char>>::empty());
        }
        return changes;
    }
    let n = prs.len();
    let mut i: usize = 0;
    while i < n
        invariant
            n == prs@.len(),
            0 <= i <= n,
            change_commit@ == commit_metadata_of(commit@),
            changes@.len() == i,
            forall|j: int|
                0 <= j < i ==> (#[trigger] changes.deep_view()[j]).commits == seq![
                    commit_metadata_of(commit@),
                ] && changes.deep_view()[j].pr_link == Some(prs@[j].pr.url@) && nodup(
                    changes.deep_view()[j].approvals,
                ) && (forall|u: Seq<char>|
                    #![trigger changes.deep_view()[j].approvals.contains(u)]
                    changes.deep_view()[j].approvals.contains(u) <==> is_approver(
                        prs@[j].reviews.deep_view(),
                        prs@[j].head_sha@,
                        u,
                    )),
        decreases n - i,
    {
        let data = &prs[i];
        let commits = vec![change_commit.clone()];
        proof {
            assert(commits.deep_view() =~= seq![commit_metadata_of(commit@)]);
        }
        let mut changeset = Changeset {
            commits,
            pr_link: Some(data.pr.url.clone()),
            approvals: Vec::new(),
        };
        proof {
            assert(changeset@.approvals =~= Seq::<Seq<char>>::empty());
            assert(changeset.wf());
        }
        changeset.collect_approved_reviews(&data.reviews, &data.head_sha);
        let ghost cm = changeset@;
        let ghost pre = changes.deep_view();
        proof {
            assert(cm.commits == seq![commit_metadata_of(commit@)]);
            assert(cm.pr_link == Some(prs@[i as int].pr.url@));
            assert(forall|u: Seq<char>| !Seq::<Seq<char>>::empty().contains(u));
            assert(forall|u: Seq<char>|
                #![trigger cm.approvals.contains(u)]
                cm.approvals.contains(u) <==> is_approver(
                    prs@[i as int].reviews.deep_view(),
                    prs@[i as int].head_sha@,
                    u,
                ));
        }
        changes.push(changeset);
        proof {
            assert(changes.deep_view() =~= pre.push(cm));
            assert forall|j: int|
                0 <= j < i + 1 implies (#[trigger] changes.deep_view()[j]).commits == seq![
                commit_metadata_of(commit@),
            ] && changes.deep_view()[j].pr_link == Some(prs@[j].pr.url@) && nodup(
                changes.deep_view()[j].approvals,
            ) && (forall|u: Seq<char>|
                #![trigger changes.deep_view()[j].approvals.contains(u)]
                changes.deep_view()[j].approvals.contains(u) <==> is_approver(
                    prs@[j].reviews.deep_view(),
                    prs@[j].head_sha@,
                    u,
                )) by {
                if j < i {
                    assert(changes.deep_view()[j] == pre[j]);
                } else {
                    assert(changes.deep_view()[j] == cm);
                }
            }
        }
        i += 1;
    }
    changes
}

/// The first index of `acc` whose pull-request link equals `link`, or
/// -1 when no changeset carries that link.
pub open spec fn find_link(acc: Seq<ChangesetModel>, link: Option<Seq<char>>) -> int
    decreases acc.len(),
{
    if acc.len() == 0 {
        -1
    } else if acc[0].pr_link == link {
        0
    } else {
        let r = find_link(acc.drop_first(), link);
        if r == -1 {
            -1
        } else {
            r + 1
        }
    }
}

/// `find_link` returns either -1 and no changeset carries the link, or
/// the first index that does.
pub proof fn lemma_find_link(acc: Seq<ChangesetModel>, link: Option<Seq<char>>)
    ensures
        find_link(acc, link) == -1 ==> forall|i: int|
            0 <= i < acc.len() ==> (#[trigger] acc[i]).pr_link != link,
        find_link(acc, link) != -1 ==> 0 <= find_link(acc, link) < acc.len() && acc[find_link(
            acc,
            link,
        )].pr_link == link && (forall|i: int|
            0 <= i < find_link(acc, link) ==> (#[trigger] acc[i]).pr_link != link),
    decreases acc.len(),
{
    if acc.len() > 0 && acc[0].pr_link != link {
        lemma_find_link(acc.drop_first(), link);
        let r = find_link(acc.drop_first(), link);
        if r == -1 {
            assert forall|i: int| 0 <= i < acc.len() implies (#[trigger] acc[i]).pr_link
                != link by {
                if i > 0 {
                    assert(acc.drop_first()[i - 1] == acc[i]);
                }
            }
        } else {
            assert(acc.drop_first()[r] == acc[r + 1]);
            assert forall|i: int| 0 <= i < r + 1 implies (#[trigger] acc[i]).pr_link != link by {
                if i > 0 {
                    assert(acc.drop_first()[i - 1] == acc[i]);
                }
            }
        }
    }
}

/// The union of two approval lists: the names of `b` appended to `a` in
/// order, skipping any name already present.
pub open spec fn union_approvals(a: Seq<Seq<char>>, b: Seq<Seq<char>>) -> Seq<Seq<char>>
    decreases b.len(),
{
    if b.len() == 0 {
        a
    } else {
        let a1 = if a.contains(b[0]) {
            a
        } else {
            a.push(b[0])
        };
        union_approvals(a1, b.drop_first())
    }
}

/// The union holds exactly the names of both lists, extends `a`, and
/// stays free of duplicates.
pub proof fn lemma_union_approvals(a: Seq<Seq<char>>, b: Seq<Seq<char>>)
    ensures
        forall|u: Seq<char>|
            #[trigger] union_approvals(a, b).contains(u) <==> (a.contains(u) || b.contains(u)),
        nodup(a) ==> nodup(union_approvals(a, b)),
        a.is_prefix_of(union_approvals(a, b)),
    decreases b.len(),
{
    if b.len() == 0 {
        assert(a.is_prefix_of(a)) by {
            assert(a =~= a.subrange(0, a.len() as int));
        }
    } else {
        let x = b[0];
        let a1 = if a.contains(x) {
            a
        } else {
            a.push(x)
        };
        lemma_union_approvals(a1, b.drop_first());
        assert forall|u: Seq<char>| #[trigger]
            union_approvals(a, b).contains(u) <==> (a.contains(u) || b.contains(u)) by {
            assert(union_approvals(a, b) == union_approvals(a1, b.drop_first()));
            assert(a1.contains(u) <==> (a.contains(u) || u == x)) by {
                if a.contains(u) {
                    let j = choose|j: int| 0 <= j < a.len() && a[j] == u;
                    assert(a1[j] == u);
                }
                if u == x && !a.contains(u) {
                    assert(a1[a.len() as int] == x);
                }
                if a1.contains(u) {
                    let j = choose|j: int| 0 <= j < a1.len() && a1[j] == u;
                    if j < a.len() {
                        assert(a[j] == u);
                    }
                }
            }
            assert(b.contains(u) <==> (u == x || b.drop_first().contains(u))) by {
                if b.contains(u) {
                    let j = choose|j: int| 0 <= j < b.len() && b[j] == u;
                    if j > 0 {
                        assert(b.drop_first()[j - 1] == u);
                    }
                }
                if b.drop_first().contains(u) {
                    let j = choose|j: int|
                        0 <= j < b.drop_first().len() && b.drop_first()[j] == u;
                    assert(b[j + 1] == u);
                }
            }
        }
        if nodup(a) {
            assert(nodup(a1)) by {
                if !a.contains(x) {
                    assert forall|i: int, j: int| 0 <= i < j < a1.len() implies a1[i] != a1[j] by {
                        if j == a.len() {
                            if a1[i] == a1[j] {
                                assert(a[i] == x);
                                assert(a.contains(x));
                            }
                        }
                    }
                }
            }
        }
        assert(a.is_prefix_of(a1)) by {
            assert(a =~= a1.subrange(0, a.len() as int));
        }
        assert(a.is_prefix_of(union_approvals(a1, b.drop_first()))) by {
            let u2 = union_approvals(a1, b.drop_first());
            assert(a1 =~= u2.subrange(0, a1.len() as int));
            assert(a =~= u2.subrange(0, a.len() as int));
        }
    }
}

/// Appending one more name to `b` extends the union by that name exactly
/// when it is new.
pub proof fn lemma_union_approvals_push(a: Seq<Seq<char>>, b: Seq<Seq<char>>, x: Seq<char>)
    ensures
        union_approvals(a, b.push(x)) == (if union_approvals(a, b).contains(x) {
            union_approvals(a, b)
        } else {
            union_approvals(a, b).push(x)
        }),
    decreases b.len(),
{
    let s = b.push(x);
    if b.len() == 0 {
        assert(s[0] == x);
        assert(s.drop_first() =~= Seq::<Seq<char>>::empty());
        let a1 = if a.contains(x) {
            a
        } else {
            a.push(x)
        };
        assert(union_approvals(a, s) == union_approvals(a1, s.drop_first()));
        assert(union_approvals(a1, s.drop_first()) == a1);
        assert(union_approvals(a, b) == a);
    } else {
        assert(s[0] == b[0]);
        let a1 = if a.contains(b[0]) {
            a
        } else {
            a.push(b[0])
        };
        assert(union_approvals(a, s) == union_approvals(a1, s.drop_first()));
        assert(s.drop_first() =~= b.drop_first().push(x));
        lemma_union_approvals_push(a1, b.drop_first(), x);
        assert(union_approvals(a, b) == union_approvals(a1, b.drop_first()));
    }
}

/// Two review units of the same pull request folded into one: all
/// commits, and the union of the approvals.
pub open spec fn merge_cell(a: ChangesetModel, c: ChangesetModel) -> ChangesetModel {
    ChangesetModel {
        commits: a.commits + c.commits,
        pr_link: a.pr_link,
        approvals: union_approvals(a.approvals, c.approvals),
    }
}

/// One incoming review unit folded into the changeset list: merged into
/// the first unit carrying the same pull-request link, appended as a new
/// unit otherwise. A unit without a link is always appended.
pub open spec fn merge_one(acc: Seq<ChangesetModel>, c: ChangesetModel) -> Seq<ChangesetModel> {
    if c.pr_link is Some && find_link(acc, c.pr_link) >= 0 {
        acc.update(find_link(acc, c.pr_link), merge_cell(acc[find_link(acc, c.pr_link)], c))
    } else {
        acc.push(c)
    }
}

/// All incoming review units folded into the changeset list, in order.
pub open spec fn merge_changesets_spec(
    acc: Seq<ChangesetModel>,
    incoming: Seq<ChangesetModel>,
) -> Seq<ChangesetModel>
    decreases incoming.len(),
{
    if incoming.len() == 0 {
        acc
    } else {
        merge_changesets_spec(merge_one(acc, incoming[0]), incoming.drop_first())
    }
}

/// Folding one more unit after a batch is folding the batch, then the
/// unit.
pub proof fn lemma_merge_spec_push(
    acc: Seq<ChangesetModel>,
    t: Seq<ChangesetModel>,
    x: ChangesetModel,
)
    ensures
        merge_changesets_spec(acc, t.push(x)) == merge_one(merge_changesets_spec(acc, t), x),
    decreases t.len(),
{
    let s = t.push(x);
    if t.len() == 0 {
        assert(s[0] == x);
        assert(s.drop_first() =~= Seq::<ChangesetModel>::empty());
        assert(merge_changesets_spec(acc, s) == merge_changesets_spec(
            merge_one(acc, x),
            s.drop_first(),
        ));
        assert(merge_changesets_spec(merge_one(acc, x), s.drop_first()) == merge_one(acc, x));
        assert(merge_changesets_spec(acc, t) == acc);
    } else {
        assert(s[0] == t[0]);
        assert(merge_changesets_spec(acc, s) == merge_changesets_spec(
            merge_one(acc, t[0]),
            s.drop_first(),
        ));
        assert(s.drop_first() =~= t.drop_first().push(x));
        lemma_merge_spec_push(merge_one(acc, t[0]), t.drop_first(), x);
        assert(merge_changesets_spec(acc, t) == merge_changesets_spec(
            merge_one(acc, t[0]),
            t.drop_first(),
        ));
    }
}

/// Every changeset's approval list is free of duplicates.
pub open spec fn all_wf(s: Seq<ChangesetModel>) -> bool {
    forall|i: int| 0 <= i < s.len() ==> nodup((#[trigger] s[i]).approvals)
}

/// A commit with no associated pull request never merges: a batch of
/// standalone units is appended one unit each, so two unlinked commits
/// always yield two separate units.
pub proof fn lemma_standalone_never_merges(acc: Seq<ChangesetModel>, inc: Seq<ChangesetModel>)
    requires
        forall|i: int| 0 <= i < inc.len() ==> (#[trigger] inc[i]).pr_link is None,
    ensures
        merge_changesets_spec(acc, inc) == acc + inc,
    decreases inc.len(),
{
    if inc.len() == 0 {
        assert(merge_changesets_spec(acc, inc) =~= acc + inc);
    } else {
        assert(inc[0].pr_link is None);
        assert(merge_one(acc, inc[0]) == acc.push(inc[0]));
        assert forall|i: int|
            0 <= i < inc.drop_first().len() implies (#[trigger] inc.drop_first()[i]).pr_link
            is None by {
            assert(inc.drop_first()[i] == inc[i + 1]);
        }
        lemma_standalone_never_merges(acc.push(inc[0]), inc.drop_first());
        assert(acc.push(inc[0]) + inc.drop_first() =~= acc + inc);
    }
}

/// Two review units carrying the same pull-request link merge into a
/// single changeset: its commit list holds both units' commits in
/// order, and its approval set is the duplicate-free union of both
/// units' approvals.
pub proof fn lemma_pr_grouping(
    acc: Seq<ChangesetModel>,
    c1: ChangesetModel,
    c2: ChangesetModel,
    url: Seq<char>,
)
    requires
        c1.pr_link == Some(url),
        c2.pr_link == Some(url),
        find_link(acc, Some(url)) == -1,
        nodup(c1.approvals),
    ensures
        ({
            let out = merge_changesets_spec(acc, seq![c1, c2]);
            &&& out.len() == acc.len() + 1
            &&& (forall|i: int| 0 <= i < acc.len() ==> out[i] == acc[i])
            &&& out.last().pr_link == Some(url)
            &&& out.last().commits == c1.commits + c2.commits
            &&& (forall|u: Seq<char>|
                #[trigger] out.last().approvals.contains(u) <==> (c1.approvals.contains(u)
                    || c2.approvals.contains(u)))
            &&& nodup(out.last().approvals)
        }),
{
    let two = seq![c1, c2];
    assert(two[0] == c1);
    lemma_find_link(acc, Some(url));
    assert(merge_one(acc, c1) == acc.push(c1));
    let acc1 = acc.push(c1);
    assert(two.drop_first() =~= seq![c2]);
    assert(seq![c2][0] == c2);
    assert(seq![c2].drop_first() =~= Seq::<ChangesetModel>::empty());
    assert(merge_changesets_spec(acc, two) == merge_changesets_spec(acc1, seq![c2]));
    assert(merge_changesets_spec(acc1, seq![c2]) == merge_changesets_spec(
        merge_one(acc1, c2),
        Seq::<ChangesetModel>::empty(),
    ));
    assert(merge_changesets_spec(merge_one(acc1, c2), Seq::<ChangesetModel>::empty())
        == merge_one(acc1, c2));
    lemma_find_link(acc1, Some(url));
    assert(acc1[acc.len() as int].pr_link == Some(url));
    assert(find_link(acc1, Some(url)) != -1);
    let f = find_link(acc1, Some(url));
    assert(f == acc.len()) by {
        if f < acc.len() {
            assert(acc1[f].pr_link == Some(url));
            assert(acc[f] == acc1[f]);
            assert(acc[f].pr_link != Some(url));
        }
    }
    let merged = merge_cell(c1, c2);
    assert(merge_one(acc1, c2) == acc1.update(acc.len() as int, merged));
    let out = merge_changesets_spec(acc, two);
    assert(out == acc1.update(acc.len() as int, merged));
    assert(out.len() == acc.len() + 1);
    assert(out.last() == merged);
    lemma_union_approvals(c1.approvals, c2.approvals);
}

/// The state of one repository's audit: its name, where it lives, the
/// two revisions under comparison, and the review units found so far.
#[derive(Debug)]
pub struct RepoChangeset {
    pub name: String,
    pub remote: Remote,
    pub base_commit: String,
    pub head_commit: String,
    pub changes: Vec<Changeset>,
}

impl RepoChangeset {
    /// A repository audit that has not found any review unit yet.
    pub fn new(name: String, remote: Remote, base_commit: String, head_commit: String) -> (r: Self)
        ensures
            r.name == name,
            r.remote == remote,
            r.base_commit == base_commit,
            r.head_commit == head_commit,
            r.changes@.len() == 0,
    {
        RepoChangeset { name, remote, base_commit, head_commit, changes: Vec::new() }
    }

    /// Folds a batch of per-commit review units into this repository's
    /// changeset list, in batch order: a unit joins the first existing
    /// unit with the same pull-request link (appending its commits and
    /// unioning its approvals without duplicates), and a unit with no
    /// link is always appended on its own.
    pub fn merge_changesets(&mut self, incoming: &Vec<Changeset>)
        requires
            all_wf(old(self).changes.deep_view()),
            all_wf(incoming.deep_view()),
        ensures
            final(self).name == old(self).name,
            final(self).remote == old(self).remote,
            final(self).base_commit == old(self).base_commit,
            final(self).head_commit == old(self).head_commit,
            final(self).changes.deep_view() == merge_changesets_spec(
                old(self).changes.deep_view(),
                incoming.deep_view(),
            ),
            all_wf(final(self).changes.deep_view()),
    {
        let ghost acc0 = self.changes.deep_view();
        let ghost inc = incoming.deep_view();
        let n = incoming.len();
        let mut k: usize = 0;
        while k < n
            invariant
                n == incoming@.len(),
                0 <= k <= n,
                inc == incoming.deep_view(),
                acc0 == old(self).changes.deep_view(),
                all_wf(acc0),
                all_wf(inc),
                self.name == old(self).name,
                self.remote == old(self).remote,
                self.base_commit == old(self).base_commit,
                self.head_commit == old(self).head_commit,
                self.changes.deep_view() == merge_changesets_spec(acc0, inc.take(k as int)),
                all_wf(self.changes.deep_view()),
            decreases n - k,
        {
            let ghost prev = self.changes.deep_view();
            let c = &incoming[k];
            proof {
                assert(c.deep_view() == inc[k as int]);
            }
            match &c.pr_link {
                None => {
                    self.changes.push(c.clone());
                    proof {
                        assert(self.changes.deep_view() =~= prev.push(inc[k as int]));
                        assert(merge_one(prev, inc[k as int]) == prev.push(inc[k as int]));
                    }
                },
                Some(url) => {
                    let m = self.changes.len();
                    let mut i: usize = 0;
                    while i < m && !link_matches(&self.changes[i].pr_link, url.as_str())
                        invariant
                            m == self.changes@.len(),
                            0 <= i <= m,
                            forall|j: int|
                                0 <= j < i ==> (#[trigger] self.changes.deep_view()[j]).pr_link
                                    != Some(url@),
                        decreases m - i,
                    {
                        i += 1;
                    }
                    proof {
                        lemma_find_link(prev, Some(url@));
                        assert(inc[k as int].pr_link == Some(url@));
                    }
                    if i == m {
                        proof {
                            assert(find_link(prev, Some(url@)) == -1) by {
                                if find_link(prev, Some(url@)) != -1 {
                                    assert(prev[find_link(prev, Some(url@))].pr_link == Some(
                                        url@,
                                    ));
                                }
                            }
                        }
                        self.changes.push(c.clone());
                        proof {
                            assert(self.changes.deep_view() =~= prev.push(inc[k as int]));
                            assert(merge_one(prev, inc[k as int]) == prev.push(inc[k as int]));
                        }
                    } else {
                        proof {
                            assert(self.changes.deep_view()[i as int].pr_link == Some(url@));
                            assert(find_link(prev, Some(url@)) == i as int) by {
                                if find_link(prev, Some(url@)) == -1 {
                                    assert(prev[i as int].pr_link != Some(url@));
                                } else {
                                    let f = find_link(prev, Some(url@));
                                    if f < i as int {
                                        assert(self.changes.deep_view()[f].pr_link != Some(url@));
                                    }
                                    if f > i as int {
                                        assert(prev[i as int].pr_link != Some(url@));
                                    }
                                }
                            }
                        }
                        let mut cell = self.changes.remove(i);
                        let ghost cell0 = cell.deep_view();
                        proof {
                            assert(self.changes.deep_view() =~= prev.remove(i as int));
                            assert(cell0 == prev[i as int]);
                        }
                        // append the incoming unit's commits, in order
                        let cn = c.commits.len();
                        proof {
                            assert(cell0.commits + c.commits.deep_view().take(0) =~~= cell0.commits);
                        }
                        let mut t: usize = 0;
                        while t < cn
                            invariant
                                cn == c.commits@.len(),
                                0 <= t <= cn,
                                cell.pr_link.deep_view() == cell0.pr_link,
                                cell.approvals.deep_view() == cell0.approvals,
                                cell.commits.deep_view() == cell0.commits
                                    + c.commits.deep_view().take(t as int),
                            decreases cn - t,
                        {
                            let ghost before = cell.commits.deep_view();
                            let elem = c.commits[t].clone();
                            let ghost em = elem@;
                            cell.commits.push(elem);
                            proof {
                                assert(cell.commits.deep_view() =~= before.push(em));
                                assert(em == c.commits.deep_view()[t as int]);
                                assert(before.push(em) =~= cell0.commits
                                    + c.commits.deep_view().take(t as int + 1));
                            }
                            t += 1;
                        }
                        proof {
                            assert(c.commits.deep_view().take(cn as int) =~= c.commits.deep_view());
                        }
                        // union in the incoming unit's approvals, skipping
                        // names already present
                        let an = c.approvals.len();
                        let ghost capps = c.deep_view().approvals;
                        proof {
                            assert(capps.take(0) =~= Seq::<Seq<char>>::empty());
                            assert(union_approvals(cell0.approvals, capps.take(0))
                                == cell0.approvals);
                        }
                        let mut t2: usize = 0;
                        while t2 < an
                            invariant
                                an == c.approvals@.len(),
                                capps == c.deep_view().approvals,
                                0 <= t2 <= an,
                                cell.pr_link.deep_view() == cell0.pr_link,
                                cell.commits.deep_view() == cell0.commits + c.commits.deep_view(),
                                cell.approvals.deep_view() == union_approvals(
                                    cell0.approvals,
                                    capps.take(t2 as int),
                                ),
                            decreases an - t2,
                        {
                            proof {
                                assert(c.approvals@[t2 as int]@ == capps[t2 as int]);
                                lemma_union_approvals_push(
                                    cell0.approvals,
                                    capps.take(t2 as int),
                                    capps[t2 as int],
                                );
                                assert(capps.take(t2 as int + 1) =~= capps.take(t2 as int).push(
                                    capps[t2 as int],
                                ));
                            }
                            if !contains_str(&cell.approvals, c.approvals[t2].as_str()) {
                                let ghost apre = cell.approvals.deep_view();
                                cell.approvals.push(c.approvals[t2].clone());
                                proof {
                                    assert(cell.approvals.deep_view() =~= apre.push(
                                        capps[t2 as int],
                                    ));
                                }
                            }
                            t2 += 1;
                        }
                        proof {
                            assert(capps.take(an as int) =~= capps);
                            assert(cell.deep_view() =~~= merge_cell(
                                prev[i as int],
                                inc[k as int],
                            ));
                        }
                        let ghost before_insert = self.changes.deep_view();
                        self.changes.insert(i, cell);
                        proof {
                            assert(self.changes.deep_view() =~= before_insert.insert(
                                i as int,
                                merge_cell(prev[i as int], inc[k as int]),
                            ));
                            assert(self.changes.deep_view() =~= prev.update(
                                i as int,
                                merge_cell(prev[i as int], inc[k as int]),
                            ));
                            assert(merge_one(prev, inc[k as int]) == prev.update(
                                i as int,
                                merge_cell(prev[i as int], inc[k as int]),
                            ));
                        }
                    }
                },
            }
            proof {
                assert(self.changes.deep_view() == merge_one(prev, inc[k as int]));
                lemma_merge_one_wf(prev, inc[k as int]);
                assert(inc.take(k as int + 1) =~= inc.take(k as int).push(inc[k as int]));
                lemma_merge_spec_push(acc0, inc.take(k as int), inc[k as int]);
            }
            k += 1;
        }
        proof {
            assert(inc.take(n as int) =~= inc);
        }
    }
}

/// Folding one well-formed unit into a well-formed list keeps every
/// approval list free of duplicates.
pub proof fn lemma_merge_one_wf(acc: Seq<ChangesetModel>, c: ChangesetModel)
    requires
        all_wf(acc),
        nodup(c.approvals),
    ensures
        all_wf(merge_one(acc, c)),
{
    if c.pr_link is Some && find_link(acc, c.pr_link) >= 0 {
        let f = find_link(acc, c.pr_link);
        lemma_find_link(acc, c.pr_link);
        lemma_union_approvals(acc[f].approvals, c.approvals);
        let out = merge_one(acc, c);
        assert forall|i: int| 0 <= i < out.len() implies nodup((#[trigger] out[i]).approvals) by {
            if i != f {
                assert(out[i] == acc[i]);
            }
        }
    } else {
        let out = acc.push(c);
        assert forall|i: int| 0 <= i < out.len() implies nodup((#[trigger] out[i]).approvals) by {
            if i < acc.len() {
                assert(out[i] == acc[i]);
            } else {
                assert(out[i] == c);
            }
        }
    }
}

/// Whether an optional pull-request link equals the given link.
pub fn link_matches(l: &Option<String>, url: &str) -> (r: bool)
    ensures
        r == (l.deep_view() == Some(url@)),
{
    match l {
        Some(s) => str_eq(s.as_str(), url),
        None => false,
    }
}

} // verus!

//! Deciding whether a commit was reviewed, and the report over all commits.
use crate::compliance::git::CommitDetails;
use crate::compliance::git::CommitDetailsV;
use crate::compliance::git::CommitSha;
use crate::compliance::git::co_authors_of;
use crate::compliance::github::AuthorsForCommits;
use crate::compliance::github::CommitAuthor;
use crate::compliance::github::CommitAuthorV;
use crate::compliance::github::CommitAuthorsV;
use crate::compliance::github::GithubLogin;
use crate::compliance::github::author_views;
use crate::compliance::github::other_authors;
use crate::text::chars_of;
use crate::text::decimal;
use crate::text::push_char;
use crate::text::push_decimal;
use crate::text::find_from;
use crate::text::find_from_exec;
use crate::text::lemma_find_from_bounds;
use crate::text::lemma_find_from_finds;
use crate::text::occurs_at;
use vstd::prelude::*;
use vstd::string::StringExecFns;

verus! {

/// The state of a pull request review.
#[derive(Clone, Copy, Debug, PartialEq, Eq, Structural)]
pub enum ReviewState {
    Open,
    Approved,
    Pending,
    ChangesRequested,
    Commented,
    Dismissed,
}

/// A review of a pull request: who gave it and in which state it is.
#[derive(Debug, PartialEq, Eq)]
pub struct Review {
    pub id: u64,
    pub user: Option<GithubLogin>,
    pub state: Option<ReviewState>,
}

/// A comment on a pull request: who wrote it and what it says.
#[derive(Debug, PartialEq, Eq)]
pub struct Comment {
    pub id: u64,
    pub user: Option<GithubLogin>,
    pub body: String,
}

pub open spec fn login_view(u: Option<GithubLogin>) -> Option<Seq<char>> {
    match u {
        Some(l) => Some(l@),
        None => None,
    }
}

pub struct ReviewV {
    pub id: u64,
    pub user: Option<Seq<char>>,
    pub state: Option<ReviewState>,
}

pub struct CommentV {
    pub id: u64,
    pub user: Option<Seq<char>>,
    pub body: Seq<char>,
}

impl View for Review {
    type V = ReviewV;

    open spec fn view(&self) -> ReviewV {
        ReviewV { id: self.id, user: login_view(self.user), state: self.state }
    }
}

impl View for Comment {
    type V = CommentV;

    open spec fn view(&self) -> CommentV {
        CommentV { id: self.id, user: login_view(self.user), body: self.body@ }
    }
}

fn clone_login(u: &Option<GithubLogin>) -> (r: Option<GithubLogin>)
    ensures
        login_view(r) == login_view(*u),
{
    match u {
        Some(l) => Some(l.clone()),
        None => None,
    }
}

impl Clone for Review {
    fn clone(&self) -> (r: Self)
        ensures
            r@ == self@,
    {
        Review { id: self.id, user: clone_login(&self.user), state: self.state }
    }
}

impl Clone for Comment {
    fn clone(&self) -> (r: Self)
        ensures
            r@ == self@,
    {
        Comment { id: self.id, user: clone_login(&self.user), body: self.body.clone() }
    }
}

pub open spec fn review_views(v: Seq<Review>) -> Seq<ReviewV> {
    v.map_values(|r: Review| r@)
}

pub open spec fn comment_views(v: Seq<Comment>) -> Seq<CommentV> {
    v.map_values(|c: Comment| c@)
}

/// How a commit was found to be reviewed.
#[derive(Debug)]
pub enum ReviewSuccess {
    /// Co-authored by members of the organization.
    CoAuthored(Vec<CommitAuthor>),
    /// Its pull request was approved by members of the organization.
    PullRequestReviewed(Vec<Review>),
    /// Members of the organization approved its pull request in comments.
    ApprovingComment(Vec<Comment>),
}

/// Why a commit was not found to be reviewed.
#[derive(Debug, PartialEq, Eq)]
pub enum ReviewFailure {
    NoPullRequestFound,
    Unreviewed,
    /// Asking GitHub failed, with this message.
    Other(String),
}

pub enum ReviewSuccessV {
    CoAuthored(Seq<CommitAuthorV>),
    PullRequestReviewed(Seq<ReviewV>),
    ApprovingComment(Seq<CommentV>),
}

pub enum ReviewFailureV {
    NoPullRequestFound,
    Unreviewed,
    Other(Seq<char>),
}

impl View for ReviewSuccess {
    type V = ReviewSuccessV;

    open spec fn view(&self) -> ReviewSuccessV {
        match self {
            ReviewSuccess::CoAuthored(v) => ReviewSuccessV::CoAuthored(author_views(v@)),
            ReviewSuccess::PullRequestReviewed(v) => ReviewSuccessV::PullRequestReviewed(review_views(v@)),
            ReviewSuccess::ApprovingComment(v) => ReviewSuccessV::ApprovingComment(comment_views(v@)),
        }
    }
}

impl View for ReviewFailure {
    type V = ReviewFailureV;

    open spec fn view(&self) -> ReviewFailureV {
        match self {
            ReviewFailure::NoPullRequestFound => ReviewFailureV::NoPullRequestFound,
            ReviewFailure::Unreviewed => ReviewFailureV::Unreviewed,
            ReviewFailure::Other(m) => ReviewFailureV::Other(m@),
        }
    }
}

pub open spec fn result_view(r: Result<ReviewSuccess, ReviewFailure>) -> Result<ReviewSuccessV, ReviewFailureV> {
    match r {
        Ok(s) => Ok(s@),
        Err(f) => Err(f@),
    }
}

/// The comment that approves a pull request on behalf of the organization.
pub open spec fn approval_pattern() -> Seq<char> {
    "@zed-zippy approved"@
}

/// The items at the positions where `answers` says yes.
pub open spec fn selected<T>(items: Seq<T>, answers: Seq<bool>) -> Seq<T>
    decreases answers.len(),
{
    if answers.len() == 0 {
        Seq::empty()
    } else {
        let rest = selected(items, answers.drop_last());
        if answers.last() {
            rest.push(items[answers.len() - 1])
        } else {
            rest
        }
    }
}

/// The co-authors whose membership is asked: those with a GitHub account.
pub open spec fn co_author_candidates(authors: Option<Seq<CommitAuthorV>>) -> Seq<CommitAuthorV> {
    match authors {
        Some(cs) => cs.filter_map(|c: CommitAuthorV| if c.user is Some { Some(c) } else { None::<CommitAuthorV> }),
        None => Seq::empty(),
    }
}

/// The reviews whose author's membership is asked: approving reviews by a
/// GitHub account.
pub open spec fn review_candidates(rs: Seq<ReviewV>) -> Seq<ReviewV> {
    rs.filter_map(|r: ReviewV| if r.user is Some && r.state == Some(ReviewState::Approved) { Some(r) } else { None::<ReviewV> })
}

/// The comments whose author's membership is asked: comments by a GitHub
/// account that hold the approval phrase.
pub open spec fn comment_candidates(cs: Seq<CommentV>) -> Seq<CommentV> {
    cs.filter_map(|c: CommentV| if c.user is Some && find_from(c.body, approval_pattern(), 0) is Some { Some(c) } else { None::<CommentV> })
}

/// Which source of approval is being looked at.
#[derive(Clone, Copy, Debug, PartialEq, Eq, Structural)]
pub enum Stage {
    CoAuthors,
    Reviews,
    Comments,
}

/// What the check waits to be told next.
#[derive(Clone, Copy, Debug, PartialEq, Eq, Structural)]
pub enum Awaiting {
    CoAuthors,
    Membership,
    Reviews,
    Comments,
    Nothing,
}

/// What the check asks to be done next.
#[derive(Debug)]
pub enum CheckStep {
    /// Ask GitHub for the authors of the commit with this hash.
    FetchCoAuthors(CommitSha),
    /// Ask whether this account belongs to the organization.
    CheckMembership(GithubLogin),
    /// Fetch the reviews of this pull request.
    FetchReviews(u64),
    /// Fetch the comments on this pull request.
    FetchComments(u64),
    /// The check is over, with this result.
    Done(Result<ReviewSuccess, ReviewFailure>),
}

pub enum CheckStepV {
    FetchCoAuthors(Seq<char>),
    CheckMembership(Seq<char>),
    FetchReviews(u64),
    FetchComments(u64),
    Done(Result<ReviewSuccessV, ReviewFailureV>),
}

impl View for CheckStep {
    type V = CheckStepV;

    open spec fn view(&self) -> CheckStepV {
        match self {
            CheckStep::FetchCoAuthors(sha) => CheckStepV::FetchCoAuthors(sha.0@),
            CheckStep::CheckMembership(l) => CheckStepV::CheckMembership(l@),
            CheckStep::FetchReviews(n) => CheckStepV::FetchReviews(*n),
            CheckStep::FetchComments(n) => CheckStepV::FetchComments(*n),
            CheckStep::Done(r) => CheckStepV::Done(result_view(*r)),
        }
    }
}

/// The check of one commit: it looks for approval by members of the
/// organization first among the commit's co-authors, then among the
/// approving reviews of its pull request, then among the comments on it that
/// hold the approval phrase. Whatever it needs from GitHub it asks for with a
/// [`CheckStep`]; the answer comes back through one of its methods.
pub struct CommitReview {
    sha: CommitSha,
    pr_number: Option<u64>,
    stage: Stage,
    awaiting: Awaiting,
    authors: Vec<CommitAuthor>,
    reviews: Vec<Review>,
    comments: Vec<Comment>,
    answers: Vec<bool>,
}

pub struct CommitReviewV {
    pub sha: Seq<char>,
    pub pr_number: Option<u64>,
    pub stage: Stage,
    pub awaiting: Awaiting,
    pub authors: Seq<CommitAuthorV>,
    pub reviews: Seq<ReviewV>,
    pub comments: Seq<CommentV>,
    pub answers: Seq<bool>,
}

impl View for CommitReview {
    type V = CommitReviewV;

    closed spec fn view(&self) -> CommitReviewV {
        CommitReviewV {
            sha: self.sha.0@,
            pr_number: self.pr_number,
            stage: self.stage,
            awaiting: self.awaiting,
            authors: author_views(self.authors@),
            reviews: review_views(self.reviews@),
            comments: comment_views(self.comments@),
            answers: self.answers@,
        }
    }
}

/// How many accounts the current stage asks about.
pub open spec fn candidate_count(v: CommitReviewV) -> nat {
    match v.stage {
        Stage::CoAuthors => v.authors.len(),
        Stage::Reviews => v.reviews.len(),
        Stage::Comments => v.comments.len(),
    }
}

/// The account that the current stage asks about in `i`-th place.
pub open spec fn candidate_login(v: CommitReviewV, i: int) -> Seq<char> {
    match v.stage {
        Stage::CoAuthors => v.authors[i].user->0,
        Stage::Reviews => v.reviews[i].user->0,
        Stage::Comments => v.comments[i].user->0,
    }
}

/// What holds of the check between steps.
pub open spec fn review_wf(v: CommitReviewV) -> bool {
    &&& review_base_wf(v)
    &&& v.awaiting == Awaiting::Membership ==> v.answers.len() < candidate_count(v)
}

pub open spec fn review_base_wf(v: CommitReviewV) -> bool {
    &&& v.answers.len() <= candidate_count(v)
    &&& v.stage != Stage::CoAuthors ==> v.pr_number is Some
    &&& v.awaiting == Awaiting::CoAuthors ==> v.stage == Stage::CoAuthors
    &&& v.awaiting == Awaiting::Reviews ==> v.stage == Stage::Reviews
    &&& v.awaiting == Awaiting::Comments ==> v.stage == Stage::Comments
    &&& forall|i: int| 0 <= i < v.authors.len() ==> (#[trigger] v.authors[i]).user is Some
    &&& forall|i: int| 0 <= i < v.reviews.len() ==> (#[trigger] v.reviews[i]).user is Some
    &&& forall|i: int| 0 <= i < v.reviews.len() ==> (#[trigger] v.reviews[i]).state == Some(ReviewState::Approved)
    &&& forall|i: int| 0 <= i < v.comments.len() ==> (#[trigger] v.comments[i]).user is Some
    &&& forall|i: int| 0 <= i < v.comments.len() ==> find_from((#[trigger] v.comments[i]).body, approval_pattern(), 0) is Some
}

/// The approval that the current stage found once every answer is in:
/// the candidates that are members, where there is at least one.
pub open spec fn stage_success(v: CommitReviewV) -> Option<ReviewSuccessV> {
    match v.stage {
        Stage::CoAuthors => {
            let s = selected(v.authors, v.answers);
            if s.len() > 0 {
                Some(ReviewSuccessV::CoAuthored(s))
            } else {
                None
            }
        },
        Stage::Reviews => {
            let s = selected(v.reviews, v.answers);
            if s.len() > 0 {
                Some(ReviewSuccessV::PullRequestReviewed(s))
            } else {
                None
            }
        },
        Stage::Comments => {
            let s = selected(v.comments, v.answers);
            if s.len() > 0 {
                Some(ReviewSuccessV::ApprovingComment(s))
            } else {
                None
            }
        },
    }
}

/// What comes after a stage that found no approval: without a pull request
/// the commit has none to look at; else its reviews, then its comments, and
/// after those the commit counts as unreviewed.
pub open spec fn after_stage(v: CommitReviewV) -> (CommitReviewV, CheckStepV) {
    match v.stage {
        Stage::CoAuthors => match v.pr_number {
            Some(n) => (
                CommitReviewV { stage: Stage::Reviews, awaiting: Awaiting::Reviews, answers: Seq::empty(), ..v },
                CheckStepV::FetchReviews(n),
            ),
            None => (
                CommitReviewV { awaiting: Awaiting::Nothing, ..v },
                CheckStepV::Done(Err(ReviewFailureV::NoPullRequestFound)),
            ),
        },
        Stage::Reviews => (
            CommitReviewV { stage: Stage::Comments, awaiting: Awaiting::Comments, answers: Seq::empty(), ..v },
            CheckStepV::FetchComments(v.pr_number->0),
        ),
        Stage::Comments => (
            CommitReviewV { awaiting: Awaiting::Nothing, ..v },
            CheckStepV::Done(Err(ReviewFailureV::Unreviewed)),
        ),
    }
}

/// The next step once an answer is in: ask about the next candidate, or
/// report the members found, or move on.
pub open spec fn advance(v: CommitReviewV) -> (CommitReviewV, CheckStepV) {
    if v.answers.len() < candidate_count(v) {
        (
            CommitReviewV { awaiting: Awaiting::Membership, ..v },
            CheckStepV::CheckMembership(candidate_login(v, v.answers.len() as int)),
        )
    } else {
        match stage_success(v) {
            Some(s) => (CommitReviewV { awaiting: Awaiting::Nothing, ..v }, CheckStepV::Done(Ok(s))),
            None => after_stage(v),
        }
    }
}

/// The check of a commit as it starts.
pub open spec fn review_start(c: CommitDetailsV) -> (CommitReviewV, CheckStepV) {
    let v = CommitReviewV {
        sha: c.sha,
        pr_number: crate::compliance::git::pr_number_of(c.title),
        stage: Stage::CoAuthors,
        awaiting: Awaiting::CoAuthors,
        authors: Seq::empty(),
        reviews: Seq::empty(),
        comments: Seq::empty(),
        answers: Seq::empty(),
    };
    if co_authors_of(c.body) is Some {
        (v, CheckStepV::FetchCoAuthors(c.sha))
    } else {
        after_stage(v)
    }
}

/// The authors of the commit other than its primary author, as GitHub's
/// answer lists them.
pub open spec fn listed_co_authors(m: Map<Seq<char>, CommitAuthorsV>, sha: Seq<char>) -> Option<Seq<CommitAuthorV>> {
    if m.contains_key(sha) {
        other_authors(m[sha])
    } else {
        None
    }
}

pub open spec fn review_on_co_authors(v: CommitReviewV, m: Map<Seq<char>, CommitAuthorsV>) -> (CommitReviewV, CheckStepV) {
    advance(CommitReviewV { authors: co_author_candidates(listed_co_authors(m, v.sha)), answers: Seq::empty(), ..v })
}

pub open spec fn review_on_membership(v: CommitReviewV, is_member: bool) -> (CommitReviewV, CheckStepV) {
    advance(CommitReviewV { answers: v.answers.push(is_member), ..v })
}

pub open spec fn review_on_reviews(v: CommitReviewV, rs: Seq<ReviewV>) -> (CommitReviewV, CheckStepV) {
    advance(CommitReviewV { reviews: review_candidates(rs), answers: Seq::empty(), ..v })
}

pub open spec fn review_on_comments(v: CommitReviewV, cs: Seq<CommentV>) -> (CommitReviewV, CheckStepV) {
    advance(CommitReviewV { comments: comment_candidates(cs), answers: Seq::empty(), ..v })
}

pub open spec fn review_on_failure(v: CommitReviewV, message: Seq<char>) -> (CommitReviewV, CheckStepV) {
    (CommitReviewV { awaiting: Awaiting::Nothing, ..v }, CheckStepV::Done(Err(ReviewFailureV::Other(message))))
}

fn select_authors(items: &Vec<CommitAuthor>, answers: &Vec<bool>) -> (r: Vec<CommitAuthor>)
    requires
        answers.len() <= items.len(),
    ensures
        author_views(r@) == selected(author_views(items@), answers@),
{
    let mut r: Vec<CommitAuthor> = Vec::new();
    let mut i: usize = 0;
    while i < answers.len()
        invariant
            i <= answers.len() <= items.len(),
            author_views(r@) == selected(author_views(items@), answers@.take(i as int)),
        decreases answers.len() - i,
    {
        proof {
            assert(answers@.take(i + 1).drop_last() =~= answers@.take(i as int));
        }
        if answers[i] {
            r.push(items[i].clone());
            assert(author_views(r@) =~= selected(author_views(items@), answers@.take(i + 1)));
        }
        i = i + 1;
    }
    assert(answers@.take(answers.len() as int) =~= answers@);
    r
}

fn select_reviews(items: &Vec<Review>, answers: &Vec<bool>) -> (r: Vec<Review>)
    requires
        answers.len() <= items.len(),
    ensures
        review_views(r@) == selected(review_views(items@), answers@),
{
    let mut r: Vec<Review> = Vec::new();
    let mut i: usize = 0;
    while i < answers.len()
        invariant
            i <= answers.len() <= items.len(),
            review_views(r@) == selected(review_views(items@), answers@.take(i as int)),
        decreases answers.len() - i,
    {
        proof {
            assert(answers@.take(i + 1).drop_last() =~= answers@.take(i as int));
        }
        if answers[i] {
            r.push(items[i].clone());
            assert(review_views(r@) =~= selected(review_views(items@), answers@.take(i + 1)));
        }
        i = i + 1;
    }
    assert(answers@.take(answers.len() as int) =~= answers@);
    r
}

fn select_comments(items: &Vec<Comment>, answers: &Vec<bool>) -> (r: Vec<Comment>)
    requires
        answers.len() <= items.len(),
    ensures
        comment_views(r@) == selected(comment_views(items@), answers@),
{
    let mut r: Vec<Comment> = Vec::new();
    let mut i: usize = 0;
    while i < answers.len()
        invariant
            i <= answers.len() <= items.len(),
            comment_views(r@) == selected(comment_views(items@), answers@.take(i as int)),
        decreases answers.len() - i,
    {
        proof {
            assert(answers@.take(i + 1).drop_last() =~= answers@.take(i as int));
        }
        if answers[i] {
            r.push(items[i].clone());
            assert(comment_views(r@) =~= selected(comment_views(items@), answers@.take(i + 1)));
        }
        i = i + 1;
    }
    assert(answers@.take(answers.len() as int) =~= answers@);
    r
}

fn co_author_candidates_exec(authors: Option<Vec<CommitAuthor>>) -> (r: Vec<CommitAuthor>)
    ensures
        author_views(r@) == co_author_candidates(match authors {
            Some(v) => Some(author_views(v@)),
            None => None,
        }),
{
    match authors {
        None => Vec::new(),
        Some(all) => {
            let ghost av = author_views(all@);
            let ghost f = |c: CommitAuthorV| if c.user is Some { Some(c) } else { None::<CommitAuthorV> };
            let mut r: Vec<CommitAuthor> = Vec::new();
            let mut i: usize = 0;
            while i < all.len()
                invariant
                    i <= all.len(),
                    av == author_views(all@),
                    f == (|c: CommitAuthorV| if c.user is Some { Some(c) } else { None::<CommitAuthorV> }),
                    author_views(r@) == av.take(i as int).filter_map(f),
                decreases all.len() - i,
            {
                proof {
                    av.lemma_filter_map_take_succ(f, i as int);
                }
                if all[i].user().is_some() {
                    r.push(all[i].clone());
                    assert(author_views(r@) =~= av.take(i + 1).filter_map(f));
                }
                i = i + 1;
            }
            assert(av.take(all.len() as int) =~= av);
            r
        },
    }
}

fn review_candidates_exec(rs: &Vec<Review>) -> (r: Vec<Review>)
    ensures
        review_views(r@) == review_candidates(review_views(rs@)),
{
    let ghost rv = review_views(rs@);
    let ghost f = |r: ReviewV| if r.user is Some && r.state == Some(ReviewState::Approved) { Some(r) } else { None::<ReviewV> };
    let mut out: Vec<Review> = Vec::new();
    let mut i: usize = 0;
    while i < rs.len()
        invariant
            i <= rs.len(),
            rv == review_views(rs@),
            f == (|r: ReviewV| if r.user is Some && r.state == Some(ReviewState::Approved) { Some(r) } else { None::<ReviewV> }),
            review_views(out@) == rv.take(i as int).filter_map(f),
        decreases rs.len() - i,
    {
        proof {
            rv.lemma_filter_map_take_succ(f, i as int);
        }
        let approved = match rs[i].state {
            Some(ReviewState::Approved) => true,
            _ => false,
        };
        if rs[i].user.is_some() && approved {
            out.push(rs[i].clone());
            assert(review_views(out@) =~= rv.take(i + 1).filter_map(f));
        }
        i = i + 1;
    }
    assert(rv.take(rs.len() as int) =~= rv);
    out
}

fn comment_candidates_exec(cs: &Vec<Comment>) -> (r: Vec<Comment>)
    ensures
        comment_views(r@) == comment_candidates(comment_views(cs@)),
{
    let ghost cv = comment_views(cs@);
    let ghost f = |c: CommentV| if c.user is Some && find_from(c.body, approval_pattern(), 0) is Some { Some(c) } else { None::<CommentV> };
    let pattern = chars_of("@zed-zippy approved");
    let mut out: Vec<Comment> = Vec::new();
    let mut i: usize = 0;
    while i < cs.len()
        invariant
            i <= cs.len(),
            cv == comment_views(cs@),
            pattern@ == approval_pattern(),
            f == (|c: CommentV| if c.user is Some && find_from(c.body, approval_pattern(), 0) is Some { Some(c) } else { None::<CommentV> }),
            comment_views(out@) == cv.take(i as int).filter_map(f),
        decreases cs.len() - i,
    {
        proof {
            cv.lemma_filter_map_take_succ(f, i as int);
        }
        if cs[i].user.is_some() {
            let body = chars_of(cs[i].body.as_str());
            if find_from_exec(&body, &pattern, 0).is_some() {
                out.push(cs[i].clone());
                assert(comment_views(out@) =~= cv.take(i + 1).filter_map(f));
            }
        }
        i = i + 1;
    }
    assert(cv.take(cs.len() as int) =~= cv);
    out
}

proof fn lemma_co_author_candidates_have_users(a: Option<Seq<CommitAuthorV>>)
    ensures
        forall|i: int| 0 <= i < co_author_candidates(a).len() ==> (#[trigger] co_author_candidates(a)[i]).user is Some,
{
    if let Some(cs) = a {
        lemma_authors_with_user(cs);
    }
}

proof fn lemma_authors_with_user(cs: Seq<CommitAuthorV>)
    ensures
        ({
            let r = cs.filter_map(|c: CommitAuthorV| if c.user is Some { Some(c) } else { None::<CommitAuthorV> });
            forall|i: int| 0 <= i < r.len() ==> (#[trigger] r[i]).user is Some
        }),
    decreases cs.len(),
{
    if cs.len() > 0 {
        lemma_authors_with_user(cs.drop_last());
    }
}

/// The reviews that are asked about are approving reviews by an account.
pub proof fn lemma_review_candidates(rs: Seq<ReviewV>)
    ensures
        forall|i: int| 0 <= i < review_candidates(rs).len() ==> {
            &&& (#[trigger] review_candidates(rs)[i]).user is Some
            &&& review_candidates(rs)[i].state == Some(ReviewState::Approved)
        },
    decreases rs.len(),
{
    if rs.len() > 0 {
        lemma_review_candidates(rs.drop_last());
    }
}

/// The comments that are asked about are comments by an account that hold
/// the approval phrase.
pub proof fn lemma_comment_candidates(cs: Seq<CommentV>)
    ensures
        forall|i: int| 0 <= i < comment_candidates(cs).len() ==> {
            &&& (#[trigger] comment_candidates(cs)[i]).user is Some
            &&& find_from(comment_candidates(cs)[i].body, approval_pattern(), 0) is Some
        },
    decreases cs.len(),
{
    if cs.len() > 0 {
        lemma_comment_candidates(cs.drop_last());
    }
}

impl CommitReview {
    /// What holds of the check between steps.
    pub closed spec fn wf(&self) -> bool {
        review_wf(self@)
    }

    /// What the check waits to be told next.
    pub fn awaiting(&self) -> (r: Awaiting)
        ensures
            r == self@.awaiting,
    {
        self.awaiting
    }

    fn after_stage(&mut self) -> (r: CheckStep)
        requires
            review_base_wf(old(self)@),
        ensures
            (final(self)@, r@) == after_stage(old(self)@),
            review_wf(final(self)@),
    {
        match self.stage {
            Stage::CoAuthors => match self.pr_number {
                Some(n) => {
                    self.stage = Stage::Reviews;
                    self.awaiting = Awaiting::Reviews;
                    self.answers = Vec::new();
                    CheckStep::FetchReviews(n)
                },
                None => {
                    self.awaiting = Awaiting::Nothing;
                    CheckStep::Done(Err(ReviewFailure::NoPullRequestFound))
                },
            },
            Stage::Reviews => {
                self.stage = Stage::Comments;
                self.awaiting = Awaiting::Comments;
                self.answers = Vec::new();
                CheckStep::FetchComments(self.pr_number.unwrap())
            },
            Stage::Comments => {
                self.awaiting = Awaiting::Nothing;
                CheckStep::Done(Err(ReviewFailure::Unreviewed))
            },
        }
    }

    fn advance(&mut self) -> (r: CheckStep)
        requires
            review_base_wf(old(self)@),
        ensures
            (final(self)@, r@) == advance(old(self)@),
            review_wf(final(self)@),
    {
        let count = match self.stage {
            Stage::CoAuthors => self.authors.len(),
            Stage::Reviews => self.reviews.len(),
            Stage::Comments => self.comments.len(),
        };
        let k = self.answers.len();
        if k < count {
            let login = match self.stage {
                Stage::CoAuthors => {
                    assert(self@.authors[k as int].user is Some);
                    self.authors[k].user().unwrap().clone()
                },
                Stage::Reviews => {
                    assert(self@.reviews[k as int].user is Some);
                    self.reviews[k].user.as_ref().unwrap().clone()
                },
                Stage::Comments => {
                    assert(self@.comments[k as int].user is Some);
                    self.comments[k].user.as_ref().unwrap().clone()
                },
            };
            self.awaiting = Awaiting::Membership;
            return CheckStep::CheckMembership(login);
        }
        match self.stage {
            Stage::CoAuthors => {
                let s = select_authors(&self.authors, &self.answers);
                if s.len() > 0 {
                    self.awaiting = Awaiting::Nothing;
                    return CheckStep::Done(Ok(ReviewSuccess::CoAuthored(s)));
                }
            },
            Stage::Reviews => {
                let s = select_reviews(&self.reviews, &self.answers);
                if s.len() > 0 {
                    self.awaiting = Awaiting::Nothing;
                    return CheckStep::Done(Ok(ReviewSuccess::PullRequestReviewed(s)));
                }
            },
            Stage::Comments => {
                let s = select_comments(&self.comments, &self.answers);
                if s.len() > 0 {
                    self.awaiting = Awaiting::Nothing;
                    return CheckStep::Done(Ok(ReviewSuccess::ApprovingComment(s)));
                }
            },
        }
        self.after_stage()
    }

    /// Starts the check of `commit`.
    pub fn start(commit: &CommitDetails) -> (r: (CommitReview, CheckStep))
        ensures
            (r.0@, r.1@) == review_start(commit@),
            r.0.wf(),
    {
        let mut review = CommitReview {
            sha: CommitSha(commit.sha().0.clone()),
            pr_number: commit.pr_number(),
            stage: Stage::CoAuthors,
            awaiting: Awaiting::CoAuthors,
            authors: Vec::new(),
            reviews: Vec::new(),
            comments: Vec::new(),
            answers: Vec::new(),
        };
        proof {
            assert(review@.authors =~= Seq::<CommitAuthorV>::empty());
            assert(review@.reviews =~= Seq::<ReviewV>::empty());
            assert(review@.comments =~= Seq::<CommentV>::empty());
        }
        if commit.co_authors().is_some() {
            let sha = CommitSha(commit.sha().0.clone());
            (review, CheckStep::FetchCoAuthors(sha))
        } else {
            let step = review.after_stage();
            (review, step)
        }
    }

    /// Goes on with the authors that GitHub lists for the commit.
    pub fn on_co_authors(&mut self, authors: &AuthorsForCommits) -> (r: CheckStep)
        requires
            old(self).wf(),
            old(self)@.awaiting == Awaiting::CoAuthors,
        ensures
            (final(self)@, r@) == review_on_co_authors(old(self)@, authors@),
            final(self).wf(),
    {
        let listed = match authors.get(&self.sha) {
            Some(a) => a.co_authors(),
            None => None,
        };
        let ghost lv = match &listed {
            Some(v) => Some(author_views(v@)),
            None => None::<Seq<CommitAuthorV>>,
        };
        self.authors = co_author_candidates_exec(listed);
        self.answers = Vec::new();
        proof {
            lemma_co_author_candidates_have_users(lv);
        }
        self.advance()
    }

    /// Goes on with whether the account last asked about is a member.
    pub fn on_membership(&mut self, is_member: bool) -> (r: CheckStep)
        requires
            old(self).wf(),
            old(self)@.awaiting == Awaiting::Membership,
        ensures
            (final(self)@, r@) == review_on_membership(old(self)@, is_member),
            final(self).wf(),
    {
        self.answers.push(is_member);
        self.advance()
    }

    /// Goes on with the reviews of the pull request.
    pub fn on_reviews(&mut self, reviews: &Vec<Review>) -> (r: CheckStep)
        requires
            old(self).wf(),
            old(self)@.awaiting == Awaiting::Reviews,
        ensures
            (final(self)@, r@) == review_on_reviews(old(self)@, review_views(reviews@)),
            final(self).wf(),
    {
        self.reviews = review_candidates_exec(reviews);
        self.answers = Vec::new();
        proof {
            lemma_review_candidates(review_views(reviews@));
        }
        self.advance()
    }

    /// Goes on with the comments on the pull request.
    pub fn on_comments(&mut self, comments: &Vec<Comment>) -> (r: CheckStep)
        requires
            old(self).wf(),
            old(self)@.awaiting == Awaiting::Comments,
        ensures
            (final(self)@, r@) == review_on_comments(old(self)@, comment_views(comments@)),
            final(self).wf(),
    {
        self.comments = comment_candidates_exec(comments);
        self.answers = Vec::new();
        proof {
            lemma_comment_candidates(comment_views(comments@));
        }
        self.advance()
    }

    /// Ends the check because asking GitHub failed with `message`.
    pub fn on_failure(&mut self, message: String) -> (r: CheckStep)
        requires
            old(self).wf(),
        ensures
            (final(self)@, r@) == review_on_failure(old(self)@, message@),
            final(self).wf(),
    {
        self.awaiting = Awaiting::Nothing;
        CheckStep::Done(Err(ReviewFailure::Other(message)))
    }
}

/// Where the `i`-th selected item came from.
pub open spec fn selected_from<T>(items: Seq<T>, answers: Seq<bool>, i: int) -> bool {
    exists|j: int| 0 <= j < answers.len() && answers[j] && items[j] == selected(items, answers)[i]
}

/// What is selected is what was answered yes.
pub proof fn lemma_selected_answered_yes<T>(items: Seq<T>, answers: Seq<bool>)
    requires
        answers.len() <= items.len(),
    ensures
        forall|i: int| 0 <= i < selected(items, answers).len() ==> #[trigger] selected_from(items, answers, i),
    decreases answers.len(),
{
    if answers.len() > 0 {
        let rest = answers.drop_last();
        lemma_selected_answered_yes(items, rest);
        let r = selected(items, answers);
        assert forall|i: int| 0 <= i < r.len() implies #[trigger] selected_from(items, answers, i) by {
            if i < selected(items, rest).len() {
                assert(selected_from(items, rest, i));
                let j = choose|j: int| 0 <= j < rest.len() && rest[j] && items[j] == selected(items, rest)[i];
                assert(answers[j] && items[j] == r[i]);
            } else {
                let j = answers.len() - 1;
                assert(answers[j] && items[j] == r[i]);
            }
        }
    }
}

proof fn lemma_filter_map_keeps<T>(s: Seq<T>, f: spec_fn(T) -> Option<T>, i: int)
    requires
        0 <= i < s.len(),
        f(s[i]) == Some(s[i]),
    ensures
        s.filter_map(f).contains(s[i]),
    decreases s.len(),
{
    let rest = s.drop_last();
    if i == s.len() - 1 {
        let r = s.filter_map(f);
        assert(r == rest.filter_map(f) + seq![s[i]]);
        assert(r[r.len() - 1] == s[i]);
    } else {
        assert(rest[i] == s[i]);
        lemma_filter_map_keeps(rest, f, i);
        let q = rest.filter_map(f);
        let j = choose|j: int| 0 <= j < q.len() && q[j] == s[i];
        let r = s.filter_map(f);
        match f(s.last()) {
            Some(x) => {
                assert(r == q + seq![x]);
                assert(r[j] == q[j]);
            },
            None => {},
        }
    }
}

/// The comments that the check asks about are exactly the comments, in those
/// given, that come from an account and hold the approval phrase anywhere in
/// their text.
pub proof fn lemma_comment_candidates_exact(cs: Seq<CommentV>)
    ensures
        forall|i: int|
            0 <= i < cs.len() && (#[trigger] cs[i]).user is Some && (exists|k: int|
                #[trigger] occurs_at(cs[i].body, approval_pattern(), k)) ==> comment_candidates(cs).contains(cs[i]),
        forall|c: CommentV|
            #[trigger] comment_candidates(cs).contains(c) ==> cs.contains(c) && c.user is Some && (exists|k: int|
                #[trigger] occurs_at(c.body, approval_pattern(), k)),
{
    let f = |c: CommentV| if c.user is Some && find_from(c.body, approval_pattern(), 0) is Some { Some(c) } else { None::<CommentV> };
    assert(comment_candidates(cs) == cs.filter_map(f));
    assert forall|i: int|
        0 <= i < cs.len() && (#[trigger] cs[i]).user is Some && (exists|k: int|
            #[trigger] occurs_at(cs[i].body, approval_pattern(), k)) implies comment_candidates(cs).contains(cs[i]) by {
        let k = choose|k: int| #[trigger] occurs_at(cs[i].body, approval_pattern(), k);
        lemma_find_from_finds(cs[i].body, approval_pattern(), 0, k);
        lemma_filter_map_keeps(cs, f, i);
    }
    assert forall|c: CommentV| #[trigger] comment_candidates(cs).contains(c) implies cs.contains(c) && c.user is Some
        && (exists|k: int| #[trigger] occurs_at(c.body, approval_pattern(), k)) by {
        cs.lemma_filter_map_contains(f, c);
        let t = choose|t: CommentV| #[trigger] cs.contains(t) && f(t) == Some(c);
        lemma_find_from_bounds(t.body, approval_pattern(), 0);
        let k = find_from(t.body, approval_pattern(), 0)->0;
        assert(occurs_at(c.body, approval_pattern(), k));
    }
}

/// Something is selected exactly when some answer is yes.
pub proof fn lemma_selected_nonempty<T>(items: Seq<T>, answers: Seq<bool>)
    ensures
        (selected(items, answers).len() > 0) == (exists|j: int| 0 <= j < answers.len() && #[trigger] answers[j]),
    decreases answers.len(),
{
    if answers.len() > 0 {
        let rest = answers.drop_last();
        lemma_selected_nonempty(items, rest);
        if exists|j: int| 0 <= j < rest.len() && #[trigger] rest[j] {
            let j = choose|j: int| 0 <= j < rest.len() && #[trigger] rest[j];
            assert(answers[j]);
        }
        if exists|j: int| 0 <= j < answers.len() && #[trigger] answers[j] {
            let j = choose|j: int| 0 <= j < answers.len() && #[trigger] answers[j];
            if j < rest.len() {
                assert(rest[j]);
            }
        }
    }
}

/// Once every candidate of a stage has been asked about, the check reports
/// the commit as reviewed exactly when some candidate is a member; else it
/// moves on to the next source of approval, or ends without one.
pub proof fn lemma_member_approval_found(v: CommitReviewV)
    requires
        review_wf(v),
        v.answers.len() == candidate_count(v),
    ensures
        (advance(v).1 matches CheckStepV::Done(Ok(_))) == (exists|j: int| 0 <= j < v.answers.len() && #[trigger] v.answers[j]),
{
    match v.stage {
        Stage::CoAuthors => lemma_selected_nonempty(v.authors, v.answers),
        Stage::Reviews => lemma_selected_nonempty(v.reviews, v.answers),
        Stage::Comments => lemma_selected_nonempty(v.comments, v.answers),
    }
}

/// The check reports a commit as reviewed only on approval by accounts that
/// were answered to be members: co-authors with an account, approving
/// reviews, or comments that hold the approval phrase.
pub proof fn lemma_reviewed_only_by_members(v: CommitReviewV)
    requires
        review_wf(v),
    ensures
        advance(v).1 matches CheckStepV::Done(Ok(s)) ==> match s {
            ReviewSuccessV::CoAuthored(authors) => v.stage == Stage::CoAuthors && authors.len() > 0
                && forall|i: int| 0 <= i < authors.len() ==> (#[trigger] authors[i]).user is Some
                && selected_from(v.authors, v.answers, i),
            ReviewSuccessV::PullRequestReviewed(reviews) => v.stage == Stage::Reviews && reviews.len() > 0
                && forall|i: int| 0 <= i < reviews.len() ==> (#[trigger] reviews[i]).state == Some(ReviewState::Approved)
                && selected_from(v.reviews, v.answers, i),
            ReviewSuccessV::ApprovingComment(comments) => v.stage == Stage::Comments && comments.len() > 0
                && forall|i: int| 0 <= i < comments.len() ==> find_from((#[trigger] comments[i]).body, approval_pattern(), 0) is Some
                && selected_from(v.comments, v.answers, i),
        },
{
    if v.answers.len() >= candidate_count(v) {
        match v.stage {
            Stage::CoAuthors => {
                lemma_selected_answered_yes(v.authors, v.answers);
                let sel = selected(v.authors, v.answers);
                assert forall|i: int| 0 <= i < sel.len() implies (#[trigger] sel[i]).user is Some
                    && selected_from(v.authors, v.answers, i) by {
                    assert(selected_from(v.authors, v.answers, i));
                    let j = choose|j: int| 0 <= j < v.answers.len() && v.answers[j] && v.authors[j] == sel[i];
                    assert(v.authors[j].user is Some);
                }
            },
            Stage::Reviews => {
                lemma_selected_answered_yes(v.reviews, v.answers);
                let sel = selected(v.reviews, v.answers);
                assert forall|i: int| 0 <= i < sel.len() implies (#[trigger] sel[i]).state == Some(ReviewState::Approved)
                    && selected_from(v.reviews, v.answers, i) by {
                    assert(selected_from(v.reviews, v.answers, i));
                    let j = choose|j: int| 0 <= j < v.answers.len() && v.answers[j] && v.reviews[j] == sel[i];
                    assert(v.reviews[j].state == Some(ReviewState::Approved));
                }
            },
            Stage::Comments => {
                lemma_selected_answered_yes(v.comments, v.answers);
                let sel = selected(v.comments, v.answers);
                assert forall|i: int| 0 <= i < sel.len() implies find_from((#[trigger] sel[i]).body, approval_pattern(), 0) is Some
                    && selected_from(v.comments, v.answers, i) by {
                    assert(selected_from(v.comments, v.answers, i));
                    let j = choose|j: int| 0 <= j < v.answers.len() && v.answers[j] && v.comments[j] == sel[i];
                    assert(find_from(v.comments[j].body, approval_pattern(), 0) is Some);
                }
            },
        }
    }
}

/// The result of checking each commit, in the order of the checks.
#[derive(Debug)]
pub struct Report {
    reports: Vec<(CommitDetails, Result<ReviewSuccess, ReviewFailure>)>,
}

pub open spec fn report_views(v: Seq<(CommitDetails, Result<ReviewSuccess, ReviewFailure>)>) -> Seq<
    (CommitDetailsV, Result<ReviewSuccessV, ReviewFailureV>),
> {
    v.map_values(|e: (CommitDetails, Result<ReviewSuccess, ReviewFailure>)| (e.0@, result_view(e.1)))
}

impl View for Report {
    type V = Seq<(CommitDetailsV, Result<ReviewSuccessV, ReviewFailureV>)>;

    closed spec fn view(&self) -> Seq<(CommitDetailsV, Result<ReviewSuccessV, ReviewFailureV>)> {
        report_views(self.reports@)
    }
}

/// How many commits were found reviewed, how many were not, and how many
/// could not be checked.
#[derive(Clone, Copy, Debug, PartialEq, Eq, Structural)]
pub struct ReportSummary {
    pub reviewed: usize,
    pub not_reviewed: usize,
    pub errors: usize,
}

pub open spec fn is_reviewed(r: Result<ReviewSuccessV, ReviewFailureV>) -> bool {
    r is Ok
}

pub open spec fn is_not_reviewed(r: Result<ReviewSuccessV, ReviewFailureV>) -> bool {
    r matches Err(ReviewFailureV::NoPullRequestFound) || r matches Err(ReviewFailureV::Unreviewed)
}

pub open spec fn is_error(r: Result<ReviewSuccessV, ReviewFailureV>) -> bool {
    r matches Err(ReviewFailureV::Other(_))
}

/// How many entries of a report satisfy `p`.
pub open spec fn count_results(
    entries: Seq<(CommitDetailsV, Result<ReviewSuccessV, ReviewFailureV>)>,
    p: spec_fn(Result<ReviewSuccessV, ReviewFailureV>) -> bool,
) -> nat
    decreases entries.len(),
{
    if entries.len() == 0 {
        0
    } else {
        count_results(entries.drop_last(), p) + if p(entries.last().1) {
            1nat
        } else {
            0nat
        }
    }
}

proof fn lemma_count_le(
    entries: Seq<(CommitDetailsV, Result<ReviewSuccessV, ReviewFailureV>)>,
    p: spec_fn(Result<ReviewSuccessV, ReviewFailureV>) -> bool,
)
    ensures
        count_results(entries, p) <= entries.len(),
    decreases entries.len(),
{
    if entries.len() > 0 {
        lemma_count_le(entries.drop_last(), p);
    }
}

/// Each result of a report counts in exactly one of the summary's three
/// figures.
pub proof fn lemma_summary_counts_each_once(entries: Seq<(CommitDetailsV, Result<ReviewSuccessV, ReviewFailureV>)>)
    ensures
        count_results(entries, |x: Result<ReviewSuccessV, ReviewFailureV>| is_reviewed(x))
            + count_results(entries, |x: Result<ReviewSuccessV, ReviewFailureV>| is_not_reviewed(x))
            + count_results(entries, |x: Result<ReviewSuccessV, ReviewFailureV>| is_error(x)) == entries.len(),
    decreases entries.len(),
{
    if entries.len() > 0 {
        lemma_summary_counts_each_once(entries.drop_last());
    }
}

impl Report {
    pub fn new() -> (r: Self)
        ensures
            r@ == Seq::<(CommitDetailsV, Result<ReviewSuccessV, ReviewFailureV>)>::empty(),
    {
        let r = Report { reports: Vec::new() };
        assert(r@ =~= Seq::<(CommitDetailsV, Result<ReviewSuccessV, ReviewFailureV>)>::empty());
        r
    }

    /// Adds the result of checking `commit`.
    pub fn add(&mut self, commit: CommitDetails, result: Result<ReviewSuccess, ReviewFailure>)
        ensures
            final(self)@ == old(self)@.push((commit@, result_view(result))),
    {
        let ghost e = (commit@, result_view(result));
        self.reports.push((commit, result));
        assert(final(self)@ =~= old(self)@.push(e));
    }

    pub fn len(&self) -> (r: usize)
        ensures
            r == self@.len(),
    {
        self.reports.len()
    }

    /// The results, in the order of the checks.
    pub fn entries(&self) -> (r: &Vec<(CommitDetails, Result<ReviewSuccess, ReviewFailure>)>)
        ensures
            report_views(r@) == self@,
    {
        &self.reports
    }

    /// Counts the commits that were found reviewed, the commits that were not
    /// (no pull request, or no approval by a member), and those whose check
    /// failed.
    pub fn summary(&self) -> (r: ReportSummary)
        ensures
            r.reviewed == count_results(self@, |x: Result<ReviewSuccessV, ReviewFailureV>| is_reviewed(x)),
            r.not_reviewed == count_results(self@, |x: Result<ReviewSuccessV, ReviewFailureV>| is_not_reviewed(x)),
            r.errors == count_results(self@, |x: Result<ReviewSuccessV, ReviewFailureV>| is_error(x)),
            r.reviewed + r.not_reviewed + r.errors == self@.len(),
    {
        proof {
            lemma_summary_counts_each_once(self@);
        }
        let ghost es = self@;
        let ghost pr = |x: Result<ReviewSuccessV, ReviewFailureV>| is_reviewed(x);
        let ghost pn = |x: Result<ReviewSuccessV, ReviewFailureV>| is_not_reviewed(x);
        let ghost pe = |x: Result<ReviewSuccessV, ReviewFailureV>| is_error(x);
        let mut summary = ReportSummary { reviewed: 0, not_reviewed: 0, errors: 0 };
        let mut i: usize = 0;
        while i < self.reports.len()
            invariant
                i <= self.reports.len(),
                es == self@,
                es == report_views(self.reports@),
                pr == (|x: Result<ReviewSuccessV, ReviewFailureV>| is_reviewed(x)),
                pn == (|x: Result<ReviewSuccessV, ReviewFailureV>| is_not_reviewed(x)),
                pe == (|x: Result<ReviewSuccessV, ReviewFailureV>| is_error(x)),
                summary.reviewed == count_results(es.take(i as int), pr),
                summary.not_reviewed == count_results(es.take(i as int), pn),
                summary.errors == count_results(es.take(i as int), pe),
            decreases self.reports.len() - i,
        {
            proof {
                assert(es.take(i + 1).drop_last() =~= es.take(i as int));
                lemma_count_le(es.take(i as int), pr);
                lemma_count_le(es.take(i as int), pn);
                lemma_count_le(es.take(i as int), pe);
            }
            match &self.reports[i].1 {
                Ok(_) => {
                    summary.reviewed = summary.reviewed + 1;
                },
                Err(ReviewFailure::NoPullRequestFound) | Err(ReviewFailure::Unreviewed) => {
                    summary.not_reviewed = summary.not_reviewed + 1;
                },
                Err(ReviewFailure::Other(_)) => {
                    summary.errors = summary.errors + 1;
                },
            }
            i = i + 1;
        }
        assert(es.take(self.reports.len() as int) =~= es);
        summary
    }
}

impl ReportSummary {
    /// Whether every commit was found reviewed.
    pub fn every_commit_reviewed(&self) -> (r: bool)
        ensures
            r == (self.not_reviewed == 0 && self.errors == 0),
    {
        self.not_reviewed == 0 && self.errors == 0
    }

    /// Whether some check failed.
    pub fn commits_reviewed_with_errors(&self) -> (r: bool)
        ensures
            r == (self.errors > 0),
    {
        self.errors > 0
    }
}

/// The verdict of the compliance check on a summary: it passes when every
/// commit was reviewed; else it fails with a message that counts the
/// unreviewed commits and, where checks failed, the other issues.
pub open spec fn compliance_verdict(s: ReportSummary) -> Result<(), Seq<char>> {
    if s.not_reviewed == 0 && s.errors == 0 {
        Ok(())
    } else if s.errors > 0 {
        Err(
            "Compliance check failed with "@ + decimal(s.not_reviewed as nat)
                + " unreviewed commits and "@ + decimal(s.errors as nat) + " other issues"@,
        )
    } else {
        Err("Compliance check failed, found "@ + decimal(s.not_reviewed as nat) + " commits not reviewed"@)
    }
}

pub fn compliance_verdict_exec(s: &ReportSummary) -> (r: Result<(), String>)
    ensures
        match r {
            Ok(()) => compliance_verdict(*s) == Ok::<(), Seq<char>>(()),
            Err(m) => compliance_verdict(*s) == Err::<(), Seq<char>>(m@),
        },
{
    if s.every_commit_reviewed() {
        Ok(())
    } else if s.commits_reviewed_with_errors() {
        let mut m = "Compliance check failed with ".to_owned();
        push_decimal(&mut m, s.not_reviewed as u64);
        m.append(" unreviewed commits and ");
        push_decimal(&mut m, s.errors as u64);
        m.append(" other issues");
        Err(m)
    } else {
        let mut m = "Compliance check failed, found ".to_owned();
        push_decimal(&mut m, s.not_reviewed as u64);
        m.append(" commits not reviewed");
        Err(m)
    }
}

} // verus!

use project_tools::compliance::git::CommitDetails;
use project_tools::compliance::git::CommitSha;
use project_tools::compliance::github::AuthorsForCommits;
use project_tools::compliance::github::CommitAuthor;
use project_tools::compliance::github::CommitAuthors;
use project_tools::compliance::github::GithubLogin;
use project_tools::compliance::report::compliance_verdict_exec;
use project_tools::compliance::report::Awaiting;
use project_tools::compliance::report::CheckStep;
use project_tools::compliance::report::Comment;
use project_tools::compliance::report::CommitReview;
use project_tools::compliance::report::Report;
use project_tools::compliance::report::ReportSummary;
use project_tools::compliance::report::Review;
use project_tools::compliance::report::ReviewFailure;
use project_tools::compliance::report::ReviewState;
use project_tools::compliance::report::ReviewSuccess;

const FD: &str = "|field-delimiter|";

fn commit(title: &str, body: &str) -> CommitDetails {
    CommitDetails::parse(&format!("abc{FD}Jane{FD}jane@x{FD}{title}"), body).unwrap()
}

fn login(l: &str) -> GithubLogin {
    GithubLogin::new(l.to_string())
}

fn review(id: u64, user: Option<&str>, state: Option<ReviewState>) -> Review {
    Review { id, user: user.map(login), state }
}

fn comment(id: u64, user: Option<&str>, body: &str) -> Comment {
    Comment { id, user: user.map(login), body: body.to_string() }
}

fn asks_membership_of(step: &CheckStep, who: &str) -> bool {
    matches!(step, CheckStep::CheckMembership(l) if l.as_str() == who)
}

#[test]
fn commit_without_pull_request_or_co_authors() {
    let (review, step) = CommitReview::start(&commit("Direct push", ""));
    assert!(matches!(step, CheckStep::Done(Err(ReviewFailure::NoPullRequestFound))));
    assert_eq!(review.awaiting(), Awaiting::Nothing);
}

#[test]
fn approved_by_a_member_in_a_review() {
    let (mut r, step) = CommitReview::start(&commit("Fix (#12)", ""));
    assert!(matches!(step, CheckStep::FetchReviews(12)));
    assert_eq!(r.awaiting(), Awaiting::Reviews);
    let reviews = vec![
        review(1, Some("outsider"), Some(ReviewState::Approved)),
        review(2, Some("member"), Some(ReviewState::Commented)),
        review(3, None, Some(ReviewState::Approved)),
        review(4, Some("member"), Some(ReviewState::Approved)),
    ];
    let step = r.on_reviews(&reviews);
    assert!(asks_membership_of(&step, "outsider"));
    let step = r.on_membership(false);
    assert!(asks_membership_of(&step, "member"));
    let step = r.on_membership(true);
    match step {
        CheckStep::Done(Ok(ReviewSuccess::PullRequestReviewed(rs))) => {
            assert_eq!(rs, vec![review(4, Some("member"), Some(ReviewState::Approved))]);
        },
        other => panic!("unexpected step {other:?}"),
    }
    assert_eq!(r.awaiting(), Awaiting::Nothing);
}

#[test]
fn approved_in_a_comment_after_no_approving_review() {
    let (mut r, _) = CommitReview::start(&commit("Feature (#7)", ""));
    let step = r.on_reviews(&vec![review(1, Some("member"), Some(ReviewState::ChangesRequested))]);
    assert!(matches!(step, CheckStep::FetchComments(7)));
    let comments = vec![
        comment(1, Some("member"), "looks fine"),
        comment(2, Some("member"), "@zed-zippy approved, ship it"),
        comment(3, None, "@zed-zippy approved"),
    ];
    let step = r.on_comments(&comments);
    assert!(asks_membership_of(&step, "member"));
    match r.on_membership(true) {
        CheckStep::Done(Ok(ReviewSuccess::ApprovingComment(cs))) => {
            assert_eq!(cs, vec![comment(2, Some("member"), "@zed-zippy approved, ship it")]);
        },
        other => panic!("unexpected step {other:?}"),
    }
}

#[test]
fn unreviewed_when_nobody_approves() {
    let (mut r, _) = CommitReview::start(&commit("Feature (#7)", ""));
    let step = r.on_reviews(&Vec::new());
    assert!(matches!(step, CheckStep::FetchComments(7)));
    let step = r.on_comments(&vec![comment(1, Some("outsider"), "@zed-zippy approved")]);
    assert!(asks_membership_of(&step, "outsider"));
    assert!(matches!(r.on_membership(false), CheckStep::Done(Err(ReviewFailure::Unreviewed))));
}

#[test]
fn co_authored_by_a_member() {
    let body = "Work\n\nCo-authored-by: Helper <helper@x>";
    let (mut r, step) = CommitReview::start(&commit("Pair work (#9)", body));
    match &step {
        CheckStep::FetchCoAuthors(sha) => assert_eq!(sha, &CommitSha("abc".to_string())),
        other => panic!("unexpected step {other:?}"),
    }
    assert_eq!(r.awaiting(), Awaiting::CoAuthors);
    let authors = AuthorsForCommits::from_response(vec![(
        "commitabc".to_string(),
        CommitAuthors::new(
            CommitAuthor::new("Jane".to_string(), "jane@x".to_string(), Some(login("jane"))),
            vec![
                CommitAuthor::new("Helper".to_string(), "helper@x".to_string(), Some(login("helper"))),
                CommitAuthor::new("No account".to_string(), "none@x".to_string(), None),
            ],
        ),
    )]);
    let step = r.on_co_authors(&authors);
    assert!(asks_membership_of(&step, "helper"));
    match r.on_membership(true) {
        CheckStep::Done(Ok(ReviewSuccess::CoAuthored(cs))) => {
            assert_eq!(cs.len(), 1);
            assert_eq!(cs[0].name(), "Helper");
        },
        other => panic!("unexpected step {other:?}"),
    }
}

#[test]
fn co_authors_who_are_not_members_lead_to_the_pull_request() {
    let body = "Co-authored-by: Helper <helper@x>";
    let (mut r, _) = CommitReview::start(&commit("Pair work (#9)", body));
    let authors = AuthorsForCommits::from_response(vec![(
        "commitabc".to_string(),
        CommitAuthors::new(
            CommitAuthor::new("Jane".to_string(), "jane@x".to_string(), None),
            vec![CommitAuthor::new("Helper".to_string(), "helper@x".to_string(), Some(login("helper")))],
        ),
    )]);
    let step = r.on_co_authors(&authors);
    assert!(asks_membership_of(&step, "helper"));
    assert!(matches!(r.on_membership(false), CheckStep::FetchReviews(9)));
}

#[test]
fn co_authors_missing_from_the_answer_lead_to_the_pull_request() {
    let (mut r, _) = CommitReview::start(&commit("Pair (#3)", "Co-authored-by: A <a@x>"));
    let authors = AuthorsForCommits::from_response(Vec::new());
    assert!(matches!(r.on_co_authors(&authors), CheckStep::FetchReviews(3)));
}

#[test]
fn failure_ends_the_check_with_its_message() {
    let (mut r, _) = CommitReview::start(&commit("Fix (#12)", ""));
    match r.on_failure("rate limited".to_string()) {
        CheckStep::Done(Err(ReviewFailure::Other(m))) => assert_eq!(m, "rate limited"),
        other => panic!("unexpected step {other:?}"),
    }
    assert_eq!(r.awaiting(), Awaiting::Nothing);
}

#[test]
fn report_summary_counts_each_outcome() {
    let mut report = Report::new();
    report.add(commit("a (#1)", ""), Ok(ReviewSuccess::PullRequestReviewed(Vec::new())));
    report.add(commit("b", ""), Err(ReviewFailure::NoPullRequestFound));
    report.add(commit("c (#3)", ""), Err(ReviewFailure::Unreviewed));
    report.add(commit("d (#4)", ""), Err(ReviewFailure::Other("boom".to_string())));
    assert_eq!(report.len(), 4);
    assert!(matches!(report.entries()[1].1, Err(ReviewFailure::NoPullRequestFound)));
    let s = report.summary();
    assert_eq!(s, ReportSummary { reviewed: 1, not_reviewed: 2, errors: 1 });
    assert_eq!(s.reviewed + s.not_reviewed + s.errors, report.len());
    assert!(!s.every_commit_reviewed());
    assert!(s.commits_reviewed_with_errors());
}

#[test]
fn verdict_messages() {
    assert_eq!(compliance_verdict_exec(&ReportSummary { reviewed: 5, not_reviewed: 0, errors: 0 }), Ok(()));
    assert_eq!(
        compliance_verdict_exec(&ReportSummary { reviewed: 5, not_reviewed: 2, errors: 3 }),
        Err("Compliance check failed with 2 unreviewed commits and 3 other issues".to_string())
    );
    assert_eq!(
        compliance_verdict_exec(&ReportSummary { reviewed: 1, not_reviewed: 12, errors: 0 }),
        Err("Compliance check failed, found 12 commits not reviewed".to_string())
    );
    let empty = Report::new().summary();
    assert!(empty.every_commit_reviewed());
    assert_eq!(compliance_verdict_exec(&empty), Ok(()));
}

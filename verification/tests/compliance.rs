use project_tools::compliance::git::co_authors_from_groups;
use project_tools::compliance::git::Checkout;
use project_tools::compliance::git::CommitDetails;
use project_tools::compliance::git::CommitList;
use project_tools::compliance::git::CommitSha;
use project_tools::compliance::git::CommitsFromVersionToHead;
use project_tools::compliance::git::Committer;
use project_tools::compliance::ComplianceArgs;
use project_tools::compliance::ReleaseChannel;
use project_tools::compliance::Version;
use project_tools::compliance::VersionTag;

const FD: &str = "|field-delimiter|";

fn line(sha: &str, name: &str, email: &str, title: &str) -> String {
    format!("{sha}{FD}{name}{FD}{email}{FD}{title}")
}

fn commit(title: &str, body: &str) -> CommitDetails {
    CommitDetails::parse(&line("abc123", "Jane Doe", "jane@example.com", title), body).unwrap()
}

#[test]
fn release_channel_suffixes() {
    assert_eq!(ReleaseChannel::Stable.tag_suffix(), "");
    assert_eq!(ReleaseChannel::Preview.tag_suffix(), "-pre");
}

#[test]
fn version_parses_and_prints() {
    let v = Version::parse("0.180.2").unwrap();
    assert_eq!(v, Version::new(0, 180, 2));
    assert_eq!(v.to_text(), "0.180.2");
    let v = Version::parse("1.2.3-beta.1+build.5").unwrap();
    assert_eq!((v.major, v.minor, v.patch), (1, 2, 3));
    assert_eq!(v.pre, "beta.1");
    assert_eq!(v.build, "build.5");
    assert_eq!(v.to_text(), "1.2.3-beta.1+build.5");
}

#[test]
fn version_parse_refuses_garbage() {
    let e = Version::parse("not a version").unwrap_err();
    assert_eq!(e.message, semver::Version::parse("not a version").unwrap_err().to_string());
    assert!(!e.message.is_empty());
    assert!(Version::parse("1.2").is_err());
}

#[test]
fn version_tags() {
    let v = Version::new(0, 180, 2);
    assert_eq!(VersionTag::new(&v, ReleaseChannel::Stable).as_str(), "v0.180.2");
    assert_eq!(VersionTag::new(&v, ReleaseChannel::Preview).as_str(), "v0.180.2-pre");
}

#[test]
fn compliance_args_tags_and_branch() {
    let args = ComplianceArgs::new(Version::new(0, 180, 2), ReleaseChannel::Preview, "report.md".to_string());
    assert_eq!(args.version_tag(), VersionTag("v0.180.2-pre".to_string()));
    assert_eq!(args.previous_version_tag(), VersionTag("v0.179.2-pre".to_string()));
    assert_eq!(args.version_branch(), "v0.180.x");
    let args = ComplianceArgs::new(Version::parse("1.5.0-rc.1").unwrap(), ReleaseChannel::Stable, "r.md".to_string());
    assert_eq!(args.previous_version_tag().as_str(), "v1.4.0");
    assert_eq!(args.version_tag().as_str(), "v1.5.0-rc.1");
}

#[test]
fn commit_details_parse_fields() {
    let c = CommitDetails::parse(&line("abc123", "Jane Doe", "jane@example.com", "Fix the thing (#123)"), "body text").unwrap();
    assert_eq!(c.sha(), &CommitSha("abc123".to_string()));
    assert_eq!(c.author(), &Committer::new("Jane Doe", "jane@example.com"));
    assert_eq!(c.author().to_text(), "Jane Doe (jane@example.com)");
    assert_eq!(c.title(), "Fix the thing (#123)");
    assert_eq!(c.body(), "body text");
}

#[test]
fn commit_details_title_keeps_further_delimiters() {
    let c = CommitDetails::parse(&format!("a{FD}b{FD}c{FD}d{FD}e"), "").unwrap();
    assert_eq!(c.title(), format!("d{FD}e"));
}

#[test]
fn commit_details_parse_refuses_short_lines() {
    let input = format!("abc{FD}Jane{FD}jane@example.com");
    let e = CommitDetails::parse(&input, "").unwrap_err();
    assert_eq!(e.line, input);
}

#[test]
fn pr_number_from_squash_title() {
    assert_eq!(commit("Fix the thing (#123)", "").pr_number(), Some(123));
    assert_eq!(commit("Revert \"a (#1)\" (#45678)", "").pr_number(), Some(45678));
    assert_eq!(commit("No number here", "").pr_number(), None);
    assert_eq!(commit("Unclosed (#123", "").pr_number(), None);
    assert_eq!(commit("Not a number (#abc)", "").pr_number(), None);
    assert_eq!(commit("Too big (#99999999999999999999)", "").pr_number(), None);
    assert_eq!(commit("Empty (#)", "").pr_number(), None);
    assert_eq!(commit("Plus sign (#+7)", "").pr_number(), Some(7));
}

#[test]
fn co_authors_from_trailers() {
    let body = "Some text\n\nCo-authored-by: Ann Smith <ann@example.com>\nCo-authored-by: Bob <bob@example.com>";
    let c = commit("Title (#1)", body);
    assert_eq!(
        c.co_authors(),
        Some(vec![Committer::new("Ann Smith", "ann@example.com"), Committer::new("Bob", "bob@example.com")])
    );
    assert_eq!(commit("Title", "no trailers").co_authors(), None);
}

#[test]
fn commit_list_reads_git_log_output() {
    let input = format!(
        "{}|body-delimiter|first body|commit-delimiter|\n{}|body-delimiter||commit-delimiter|",
        line("aaa", "A", "a@x", "One (#1)"),
        line("bbb", "B", "b@x", "Two (#2)")
    );
    assert!(CommitList::is_well_formed(&input));
    let list = CommitList::from_str(&input);
    assert_eq!(list.len(), 2);
    let commits = list.into_commits();
    assert_eq!(commits[0].sha(), &CommitSha("aaa".to_string()));
    assert_eq!(commits[0].body(), "first body");
    assert_eq!(commits[1].title(), "Two (#2)");
    assert_eq!(commits[1].body(), "");
}

#[test]
fn commit_list_of_nothing_is_empty() {
    assert!(CommitList::is_well_formed(""));
    assert_eq!(CommitList::from_str("").len(), 0);
}

#[test]
fn commit_list_flags_entries_without_body_delimiter() {
    let input = format!("{}|commit-delimiter|", line("aaa", "A", "a@x", "One"));
    assert!(!CommitList::is_well_formed(&input));
}

#[test]
fn git_arguments() {
    let log = CommitsFromVersionToHead(VersionTag("v0.179.2".to_string()));
    assert_eq!(
        log.args(),
        vec![
            "log".to_string(),
            "--pretty=format:%H|field-delimiter|%an|field-delimiter|%ae|field-delimiter|%s|body-delimiter|%b|commit-delimiter|"
                .to_string(),
            "v0.179.2..HEAD".to_string(),
        ]
    );
    assert_eq!(Checkout("v0.180.x".to_string()).args(), vec!["checkout".to_string(), "v0.180.x".to_string()]);
    assert_eq!(Checkout::previous_branch().args(), vec!["checkout".to_string(), "-".to_string()]);
}

#[test]
fn co_authors_from_capture_groups() {
    let groups = vec![
        (Some("Ann".to_string()), Some("ann@x".to_string())),
        (Some("No mail".to_string()), None),
        (Some("Bob".to_string()), Some("bob@x".to_string())),
    ];
    assert_eq!(
        co_authors_from_groups(groups),
        Some(vec![Committer::new("Ann", "ann@x"), Committer::new("Bob", "bob@x")])
    );
    assert_eq!(co_authors_from_groups(vec![(None, Some("x".to_string()))]), None);
    assert_eq!(co_authors_from_groups(Vec::new()), None);
}

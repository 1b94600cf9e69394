use project_tools::compliance::github::MemberFetch;
use project_tools::compliance::git::CommitSha;
use project_tools::compliance::github::build_co_authors_query;
use project_tools::compliance::github::next_members_page_exec;
use project_tools::compliance::github::select_installation;
use project_tools::compliance::github::strip_commit_prefix_exec;
use project_tools::compliance::github::AuthorsForCommits;
use project_tools::compliance::github::CommitAuthor;
use project_tools::compliance::github::CommitAuthors;
use project_tools::compliance::github::GithubLogin;
use project_tools::compliance::github::OrganizationMembers;
use project_tools::compliance::github::FRAGMENT;

fn author(name: &str, email: &str, login: Option<&str>) -> CommitAuthor {
    CommitAuthor::new(name.to_string(), email.to_string(), login.map(|l| GithubLogin::new(l.to_string())))
}

#[test]
fn github_login_keeps_its_text() {
    assert_eq!(GithubLogin::new("octocat".to_string()).as_str(), "octocat");
}

#[test]
fn commit_authors_compare_by_login_where_both_have_one() {
    assert!(author("A", "a@x", Some("same")) == author("B", "b@x", Some("same")));
    assert!(author("A", "a@x", Some("one")) != author("A", "a@x", Some("two")));
    assert!(author("A", "a@x", None) == author("Other", "a@x", Some("x")));
    assert!(author("A", "a@x", None) == author("A", "other@x", None));
    assert!(author("A", "a@x", None) != author("B", "b@x", None));
    assert_eq!(author("A", "a@x", Some("l")).user(), Some(&GithubLogin::new("l".to_string())));
    assert_eq!(author("A", "a@x", None).user(), None);
}

#[test]
fn co_authors_leave_out_the_primary_author() {
    let authors = CommitAuthors::new(
        author("Primary", "p@x", Some("primary")),
        vec![
            author("Primary again", "p2@x", Some("primary")),
            author("Helper", "h@x", Some("helper")),
            author("Mail twin", "p@x", None),
        ],
    );
    let co = authors.co_authors().unwrap();
    assert_eq!(co.len(), 1);
    assert_eq!(co[0].name(), "Helper");
    assert_eq!(co[0].email(), "h@x");
}

#[test]
fn co_authors_of_a_commit_without_any() {
    let authors = CommitAuthors::new(author("Primary", "p@x", None), Vec::new());
    assert!(authors.co_authors().is_none());
    let only_primary = CommitAuthors::new(author("Primary", "p@x", None), vec![author("Primary", "p@x", None)]);
    assert_eq!(only_primary.co_authors().map(|v| v.len()), Some(0));
}

#[test]
fn response_keys_lose_their_commit_prefix() {
    assert_eq!(strip_commit_prefix_exec("commitabc123"), "abc123");
    assert_eq!(strip_commit_prefix_exec("abc123"), "abc123");
    assert_eq!(strip_commit_prefix_exec("commit"), "");
    let map = AuthorsForCommits::from_response(vec![
        ("commitabc".to_string(), CommitAuthors::new(author("A", "a@x", None), Vec::new())),
        ("commitdef".to_string(), CommitAuthors::new(author("D", "d@x", None), Vec::new())),
    ]);
    assert!(map.get(&CommitSha("abc".to_string())).is_some());
    assert!(map.get(&CommitSha("def".to_string())).is_some());
    assert!(map.get(&CommitSha("commitabc".to_string())).is_none());
}

#[test]
fn later_response_entry_for_a_hash_wins() {
    let map = AuthorsForCommits::from_response(vec![
        ("commitabc".to_string(), CommitAuthors::new(author("First", "f@x", None), vec![author("X", "x@x", None)])),
        ("commitabc".to_string(), CommitAuthors::new(author("Second", "s@x", None), Vec::new())),
    ]);
    assert!(map.get(&CommitSha("abc".to_string())).unwrap().co_authors().is_none());
}

#[test]
fn co_authors_query_for_two_commits() {
    let q = build_co_authors_query(&vec![CommitSha("aaa".to_string()), CommitSha("bbb".to_string())]);
    let objects = format!(
        "commitaaa: object(oid: \"aaa\") {{ {FRAGMENT} }}\ncommitbbb: object(oid: \"bbb\") {{ {FRAGMENT} }}"
    );
    let expected = format!("{{  repository(owner: \"zed-industries\", name: \"zed\") {{ {objects}  }} }}")
        .replace('\n', "");
    assert_eq!(q, expected);
    assert!(!q.contains('\n'));
    assert!(q.starts_with("{  repository(owner: \"zed-industries\", name: \"zed\") { commitaaa: object(oid: \"aaa\")"));
}

#[test]
fn co_authors_query_without_commits() {
    assert_eq!(
        build_co_authors_query(&Vec::new()),
        "{  repository(owner: \"zed-industries\", name: \"zed\") {   } }"
    );
}

#[test]
fn organization_members_are_known_once_fetched() {
    let mut members = OrganizationMembers::new();
    let login = GithubLogin::new("octocat".to_string());
    assert_eq!(members.contains(&login), None);
    members.set(vec!["someone".to_string(), "octocat".to_string()]);
    assert_eq!(members.contains(&login), Some(true));
    assert_eq!(members.contains(&GithubLogin::new("stranger".to_string())), Some(false));
}

#[test]
fn member_pages_follow_incomplete_results_or_next_links() {
    assert_eq!(next_members_page_exec(1, Some(true), false), Some(2));
    assert_eq!(next_members_page_exec(1, None, true), Some(2));
    assert_eq!(next_members_page_exec(3, Some(false), false), None);
    assert_eq!(next_members_page_exec(3, None, false), None);
}

#[test]
fn installation_on_the_organization_is_chosen() {
    let installations = vec![
        ("someone-else".to_string(), 1),
        ("zed-industries".to_string(), 42),
        ("zed-industries".to_string(), 43),
    ];
    assert_eq!(select_installation(&installations), Some(42));
    assert_eq!(select_installation(&vec![("other".to_string(), 1)]), None);
}

#[test]
fn logins_are_equal_exactly_when_their_names_are() {
    assert!(GithubLogin::new("octocat".to_string()) == GithubLogin::new("octocat".to_string()));
    assert!(GithubLogin::new("octocat".to_string()) != GithubLogin::new("Octocat".to_string()));
}

#[test]
fn members_are_gathered_over_all_pages_before_they_are_stored() {
    let mut fetch = MemberFetch::new();
    assert_eq!(fetch.next_page(), Some(1));
    fetch.on_page(vec!["a".to_string(), "b".to_string()], None, true);
    assert_eq!(fetch.next_page(), Some(2));
    fetch.on_page(vec!["c".to_string()], Some(true), false);
    assert_eq!(fetch.next_page(), Some(3));
    fetch.on_page(Vec::new(), Some(false), false);
    assert_eq!(fetch.next_page(), None);
    assert_eq!(fetch.len(), 3);
    let mut members = OrganizationMembers::new();
    members.store(fetch);
    assert_eq!(members.contains(&GithubLogin::new("c".to_string())), Some(true));
    assert_eq!(members.contains(&GithubLogin::new("d".to_string())), Some(false));
}

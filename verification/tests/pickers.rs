use project_tools::thread_picker::same_path_exec;
use project_tools::thread_picker::branch::sort_branches;
use project_tools::thread_picker::branch::Branch;
use project_tools::thread_picker::branch::ThreadBranchEntry;
use project_tools::thread_picker::branch::ThreadBranchPickerDelegate;
use project_tools::thread_picker::branch::Upstream;
use project_tools::thread_picker::dashed_exec;
use project_tools::thread_picker::worktree::ThreadWorktreeEntry;
use project_tools::thread_picker::worktree::ThreadWorktreePickerDelegate;
use project_tools::thread_picker::EntryColor;
use project_tools::thread_picker::EntryIcon;
use project_tools::thread_picker::FuzzyMatch;
use project_tools::thread_picker::GitWorktree;
use project_tools::thread_picker::StartThreadIn;

fn local(name: &str, is_head: bool, ts: i64, upstream: Option<&str>) -> Branch {
    Branch {
        ref_name: format!("refs/heads/{name}"),
        name: name.to_string(),
        is_remote: false,
        is_head,
        upstream: upstream.map(|u| Upstream { ref_name: u.to_string(), is_remote: true }),
        commit_timestamp: Some(ts),
    }
}

fn remote(name: &str, ts: Option<i64>) -> Branch {
    Branch {
        ref_name: format!("refs/remotes/{name}"),
        name: name.to_string(),
        is_remote: true,
        is_head: false,
        upstream: None,
        commit_timestamp: ts,
    }
}

fn worktree(path: &str, branch: Option<&str>, display_name: &str) -> GitWorktree {
    GitWorktree {
        path: path.to_string(),
        ref_name: branch.map(|b| format!("refs/heads/{b}")),
        branch_name: branch.map(|b| b.to_string()),
        display_name: display_name.to_string(),
    }
}

fn new_worktree(worktree_name: Option<&str>, branch_name: Option<&str>, start_point: Option<&str>) -> StartThreadIn {
    StartThreadIn::NewWorktree {
        worktree_name: worktree_name.map(|s| s.to_string()),
        branch_name: branch_name.map(|s| s.to_string()),
        start_point: start_point.map(|s| s.to_string()),
    }
}

fn names(entries: &[ThreadBranchEntry]) -> Vec<String> {
    entries
        .iter()
        .map(|e| match e {
            ThreadBranchEntry::RandomBranch => "<random>".to_string(),
            ThreadBranchEntry::ExistingBranch { branch, .. } => branch.name.clone(),
            ThreadBranchEntry::CreateNamed { name } => format!("<create {name}>"),
        })
        .collect()
}

/// A picker that prefers creating `feature`, over the repository below.
fn branch_picker() -> ThreadBranchPickerDelegate {
    let mut picker = ThreadBranchPickerDelegate::new(
        &new_worktree(Some("wt"), Some("feature"), None),
        vec!["/proj".to_string()],
    );
    picker.set_branches(
        vec![
            local("old", false, 50, None),
            remote("origin/main", Some(400)),
            local("main", true, 100, Some("refs/remotes/origin/main")),
            remote("origin/feature-x", None),
            local("dev", false, 300, None),
        ],
        vec![worktree("/proj", Some("main"), "proj"), worktree("/other", Some("dev"), "other")],
    );
    picker
}

#[test]
fn dashes_replace_spaces() {
    assert_eq!(dashed_exec("my new branch"), "my-new-branch");
    assert_eq!(dashed_exec("plain"), "plain");
}

#[test]
fn branches_sort_local_head_then_newest() {
    let sorted = sort_branches(&vec![
        remote("origin/x", Some(10)),
        local("a", false, 5, None),
        local("b", false, 20, None),
        local("head", true, 1, None),
        Branch { commit_timestamp: None, ..local("undated", false, 0, None) },
        local("c", false, 20, None),
    ]);
    let order: Vec<&str> = sorted.iter().map(|b| b.name.as_str()).collect();
    assert_eq!(order, vec!["head", "undated", "b", "c", "a", "origin/x"]);
}

#[test]
fn branch_picker_starts_with_random_branch() {
    let picker = ThreadBranchPickerDelegate::new(&StartThreadIn::LocalProject, Vec::new());
    assert_eq!(picker.match_count(), 1);
    assert_eq!(picker.selected_index(), 0);
    assert_eq!(picker.separators_after_indices(), Vec::<usize>::new());
    assert_eq!(
        picker.confirm(),
        Some(new_worktree(None, None, None))
    );
}

#[test]
fn branch_picker_lists_offered_branches_and_selects_the_name_to_create() {
    let mut picker = branch_picker();
    assert!(picker.update_matches("").is_none());
    assert_eq!(
        names(picker.matches()),
        vec!["<random>", "main", "dev", "old", "origin/feature-x", "<create feature>"]
    );
    assert_eq!(picker.selected_index(), 5);
    assert_eq!(picker.separators_after_indices(), vec![0]);
    assert_eq!(picker.confirm(), Some(new_worktree(Some("wt"), Some("feature"), None)));
}

#[test]
fn occupied_branches_cannot_be_chosen() {
    let mut picker = branch_picker();
    picker.update_matches("");
    picker.set_selected_index(1);
    assert_eq!(picker.confirm(), None);
    let view = picker.render_match(1).unwrap();
    assert_eq!(view.element_id, "branch-1");
    assert_eq!(view.label, "main");
    assert!(view.disabled);
    assert_eq!(view.icon, EntryIcon::GitBranch);
    assert_eq!(view.label_color, EntryColor::Disabled);
    assert_eq!(
        view.tooltip.as_deref(),
        Some("This branch is already checked out in the current project worktree at /proj.")
    );
    let view = picker.render_match(2).unwrap();
    assert_eq!(view.tooltip.as_deref(), Some("This branch is already checked out in a linked worktree at /other."));
}

#[test]
fn choosing_existing_branches() {
    let mut picker = branch_picker();
    picker.update_matches("");
    picker.set_selected_index(3);
    assert_eq!(picker.confirm(), Some(new_worktree(Some("wt"), None, Some("old"))));
    assert_eq!(picker.render_match(3).unwrap().tooltip.as_deref(), Some("old"));
    picker.set_selected_index(4);
    assert_eq!(
        picker.confirm(),
        Some(new_worktree(Some("wt"), Some("feature-x"), Some("origin/feature-x")))
    );
    assert_eq!(
        picker.render_match(4).unwrap().tooltip.as_deref(),
        Some("Create a new local branch from this remote branch")
    );
    picker.set_selected_index(0);
    assert_eq!(picker.confirm(), Some(new_worktree(Some("wt"), None, None)));
    let random = picker.render_match(0).unwrap();
    assert_eq!(random.label, "Random Branch");
    assert_eq!(random.element_id, "random-branch");
    let create = picker.render_match(5).unwrap();
    assert_eq!(create.label, "Create Branch: \"feature\"\u{2026}");
    assert_eq!(create.icon_color, EntryColor::Accent);
    assert!(picker.render_match(6).is_none());
}

#[test]
fn branch_query_keeps_matching_branches_in_match_order() {
    let mut picker = branch_picker();
    let query = picker.update_matches("fea").unwrap();
    assert_eq!(query.query(), "fea");
    let candidates = query.candidates();
    assert_eq!(candidates, vec!["main", "dev", "old", "origin/feature-x"]);
    picker.apply_fuzzy_matches(
        query,
        vec![
            FuzzyMatch { candidate_id: 3, positions: vec![7, 8, 9] },
            FuzzyMatch { candidate_id: 1, positions: vec![] },
        ],
    );
    assert_eq!(names(picker.matches()), vec!["<random>", "origin/feature-x", "dev"]);
    assert_eq!(picker.selected_index(), 0);
    assert_eq!(picker.render_match(1).unwrap().highlight_positions, vec![7, 8, 9]);
}

#[test]
fn branch_query_without_matches_offers_to_create() {
    let mut picker = branch_picker();
    let query = picker.update_matches("my branch").unwrap();
    picker.apply_fuzzy_matches(query, Vec::new());
    assert_eq!(names(picker.matches()), vec!["<random>", "<create my-branch>"]);
    picker.set_selected_index(1);
    assert_eq!(picker.confirm(), Some(new_worktree(Some("wt"), Some("my-branch"), None)));
}

#[test]
fn branch_picker_selects_the_start_point_branch() {
    let mut picker = ThreadBranchPickerDelegate::new(&new_worktree(None, None, Some("old")), Vec::new());
    picker.set_branches(vec![local("main", true, 1, None), local("old", false, 0, None)], Vec::new());
    picker.update_matches("");
    assert_eq!(names(picker.matches()), vec!["<random>", "main", "old"]);
    assert_eq!(picker.selected_index(), 2);
}

#[test]
fn branch_picker_before_branches_are_known() {
    let mut picker = ThreadBranchPickerDelegate::new(&new_worktree(None, Some("x"), None), Vec::new());
    assert!(picker.update_matches("query").is_none());
    assert_eq!(names(picker.matches()), vec!["<random>"]);
}

/// A worktree picker in a project at `/proj`, with two linked worktrees.
fn worktree_picker(target: &StartThreadIn, has_git_repo: bool, is_via_collab: bool) -> ThreadWorktreePickerDelegate {
    let mut picker = ThreadWorktreePickerDelegate::new(target, has_git_repo, is_via_collab, vec!["/proj".to_string()]);
    picker.set_worktrees(vec![
        worktree("/proj", Some("main"), "proj"),
        worktree("/wt/feature", Some("feature"), "feature"),
        worktree("/wt/detached", None, "detached"),
        worktree("/wt/bugfix", Some("bugfix"), "bugfix\r\nsecond line"),
    ]);
    picker
}

#[test]
fn worktree_picker_starts_on_the_current_target() {
    let picker = ThreadWorktreePickerDelegate::new(&StartThreadIn::LocalProject, true, false, Vec::new());
    assert_eq!(picker.match_count(), 2);
    assert_eq!(picker.selected_index(), 0);
    assert_eq!(picker.confirm(), Some(StartThreadIn::LocalProject));
    let picker = ThreadWorktreePickerDelegate::new(&new_worktree(None, Some("b"), Some("s")), true, false, Vec::new());
    assert_eq!(picker.selected_index(), 1);
    assert_eq!(picker.confirm(), Some(new_worktree(None, Some("b"), Some("s"))));
}

#[test]
fn worktree_picker_lists_linked_worktrees_on_a_branch() {
    let mut picker = worktree_picker(&StartThreadIn::LocalProject, true, false);
    assert!(picker.update_matches("").is_none());
    let entries = picker.matches();
    assert_eq!(entries.len(), 4);
    assert_eq!(entries[0], ThreadWorktreeEntry::CurrentWorktree);
    assert_eq!(entries[1], ThreadWorktreeEntry::NewWorktree);
    assert!(matches!(&entries[2], ThreadWorktreeEntry::LinkedWorktree { worktree, .. } if worktree.path == "/wt/feature"));
    assert!(matches!(&entries[3], ThreadWorktreeEntry::LinkedWorktree { worktree, .. } if worktree.path == "/wt/bugfix"));
    assert_eq!(picker.separators_after_indices(), vec![1]);
    picker.set_selected_index(2);
    assert_eq!(
        picker.confirm(),
        Some(StartThreadIn::LinkedWorktree { path: "/wt/feature".to_string(), display_name: "feature".to_string() })
    );
}

#[test]
fn worktree_entries_render() {
    let mut picker = worktree_picker(&StartThreadIn::LocalProject, true, false);
    picker.update_matches("");
    let current = picker.render_match(0).unwrap();
    assert_eq!(current.label, "Current Worktree");
    assert_eq!(current.icon, EntryIcon::Folder);
    let new = picker.render_match(1).unwrap();
    assert_eq!(new.label, "New Git Worktree");
    assert!(!new.disabled);
    let bugfix = picker.render_match(3).unwrap();
    assert_eq!(bugfix.element_id, "linked-worktree-3");
    assert_eq!(bugfix.label, "bugfix");
    assert!(picker.render_match(4).is_none());
}

#[test]
fn new_worktree_disabled_without_repository_or_in_collaboration() {
    let mut picker = worktree_picker(&StartThreadIn::LocalProject, false, false);
    picker.update_matches("");
    let new = picker.render_match(1).unwrap();
    assert!(new.disabled);
    assert_eq!(new.icon_color, EntryColor::Disabled);
    let mut picker = worktree_picker(&StartThreadIn::LocalProject, true, true);
    picker.update_matches("");
    assert!(picker.render_match(1).unwrap().disabled);
}

#[test]
fn worktree_query_selects_first_match_and_offers_to_create() {
    let mut picker = worktree_picker(&StartThreadIn::LocalProject, true, false);
    let query = picker.update_matches("bug fix").unwrap();
    assert_eq!(query.query(), "bug fix");
    assert_eq!(query.candidates(), vec!["feature", "bugfix\r\nsecond line"]);
    picker.apply_fuzzy_matches(query, vec![FuzzyMatch { candidate_id: 1, positions: vec![0, 1, 2, 3, 40] }]);
    let entries = picker.matches();
    assert_eq!(entries.len(), 4);
    assert_eq!(entries[3], ThreadWorktreeEntry::CreateNamed { name: "bug-fix".to_string() });
    assert_eq!(picker.selected_index(), 2);
    // Highlights beyond the first line are dropped.
    assert_eq!(picker.render_match(2).unwrap().highlight_positions, vec![0, 1, 2, 3]);
    let create = picker.render_match(3).unwrap();
    assert_eq!(create.label, "Create Worktree: \"bug-fix\"\u{2026}");
    picker.set_selected_index(3);
    assert_eq!(picker.confirm(), Some(new_worktree(Some("bug-fix"), None, None)));
}

#[test]
fn worktree_query_matching_a_name_exactly_offers_no_creation() {
    let mut picker = worktree_picker(&StartThreadIn::LocalProject, true, false);
    let query = picker.update_matches("feature").unwrap();
    picker.apply_fuzzy_matches(query, vec![FuzzyMatch { candidate_id: 0, positions: vec![0] }]);
    assert_eq!(picker.match_count(), 3);
    assert_eq!(picker.selected_index(), 2);
}

#[test]
fn worktree_query_without_matches() {
    let mut picker = worktree_picker(&new_worktree(None, Some("keep"), None), true, false);
    let query = picker.update_matches("zzz").unwrap();
    picker.apply_fuzzy_matches(query, Vec::new());
    assert_eq!(picker.match_count(), 3);
    assert_eq!(picker.selected_index(), 2);
    assert_eq!(picker.confirm(), Some(new_worktree(Some("zzz"), Some("keep"), None)));
}

#[test]
fn paths_compare_by_their_components() {
    let same = |a: &str, b: &str| same_path_exec(&a.to_string(), &b.to_string());
    assert!(same("/a/b/", "/a/b"));
    assert!(same("/a//b", "/a/b"));
    assert!(same("/a/./b/.", "/a/b"));
    assert!(same("./", "."));
    assert!(!same("./a", "a"));
    assert!(!same("/a", "a"));
    assert!(!same("/a/../b", "/b"));
    assert!(!same("/ab", "/a/b"));
}

#[test]
fn project_worktree_with_trailing_separator_is_still_the_project() {
    let mut picker = ThreadWorktreePickerDelegate::new(&StartThreadIn::LocalProject, true, false, vec!["/proj/".to_string()]);
    picker.set_worktrees(vec![worktree("/proj", Some("main"), "proj"), worktree("/wt/x", Some("x"), "x")]);
    picker.update_matches("");
    assert_eq!(picker.match_count(), 3);

    let mut branches = ThreadBranchPickerDelegate::new(&StartThreadIn::LocalProject, vec!["/proj/".to_string()]);
    branches.set_branches(vec![local("main", true, 1, None)], vec![worktree("/proj", Some("main"), "proj")]);
    branches.update_matches("");
    assert_eq!(
        branches.render_match(1).unwrap().tooltip.as_deref(),
        Some("This branch is already checked out in the current project worktree at /proj.")
    );
}

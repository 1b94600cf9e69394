use project_tools::undo::OperationRun;
use project_tools::undo::Change;
use project_tools::undo::LeafOutcome;
use project_tools::undo::Operation;
use project_tools::undo::ProjectPath;
use project_tools::undo::TrashedEntry;
use project_tools::undo::UndoManager;
use project_tools::undo::WorktreeId;
use project_tools::undo::MAX_UNDO_OPERATIONS;

fn path(p: &str) -> ProjectPath {
    ProjectPath::new(WorktreeId(1), p.to_string())
}

/// Runs an operation whose single operations all succeed: creating, renaming,
/// trashing (the trash hands out `trash_id`) and restoring (to `restored`).
fn succeed(op: Operation, trash_id: u64, restored: &str) -> Change {
    let outcomes: Vec<LeafOutcome> = op
        .leaves()
        .into_iter()
        .map(|leaf| match leaf {
            Operation::Create(_) => LeafOutcome::Created,
            Operation::Rename(_, _) => LeafOutcome::Renamed,
            Operation::Trash(_) => LeafOutcome::Trashed(TrashedEntry { id: trash_id }),
            Operation::Restore(_, _) => LeafOutcome::Restored(path(restored)),
            Operation::Batch(_) => unreachable!(),
        })
        .collect();
    op.into_change(outcomes).unwrap()
}

/// Undoes with every single operation succeeding; `None` when there was
/// nothing to undo.
fn undo(m: &mut UndoManager, trash_id: u64, restored: &str) -> Option<()> {
    let op = m.begin_undo()?;
    let change = succeed(op, trash_id, restored);
    assert!(m.has_room());
    m.finish_undo(change);
    Some(())
}

/// Redoes with every single operation succeeding; `None` when there was
/// nothing to redo.
fn redo(m: &mut UndoManager, trash_id: u64, restored: &str) -> Option<()> {
    let op = m.begin_redo()?;
    let change = succeed(op, trash_id, restored);
    assert!(m.has_room());
    m.finish_redo(change);
    Some(())
}

#[test]
fn new_manager_has_nothing_to_undo_or_redo() {
    let mut m = UndoManager::new();
    assert!(!m.can_undo());
    assert!(!m.can_redo());
    assert_eq!(m.len(), 0);
    assert_eq!(m.begin_undo(), None);
    assert_eq!(m.begin_redo(), None);
    assert_eq!(MAX_UNDO_OPERATIONS, 10_000);
}

#[test]
fn recording_nothing_changes_nothing() {
    let mut m = UndoManager::new();
    m.record(Vec::new());
    assert_eq!(m.len(), 0);
    assert!(!m.can_undo());
}

#[test]
fn limit_keeps_only_the_newest_changes() {
    let mut m = UndoManager::new_with_limit(3);
    for name in ["file_a.txt", "file_b.txt", "file_c.txt", "file_d.txt"] {
        m.record(vec![Change::Created(path(name))]);
    }
    assert_eq!(m.len(), 3);
    // The oldest change left: undoing three times trashes d, c and b.
    assert_eq!(m.begin_undo(), Some(Operation::Trash(path("file_d.txt"))));
    m.finish_undo(Change::Trashed(WorktreeId(1), TrashedEntry { id: 4 }));
    assert_eq!(m.begin_undo(), Some(Operation::Trash(path("file_c.txt"))));
    m.finish_undo(Change::Trashed(WorktreeId(1), TrashedEntry { id: 3 }));
    assert_eq!(m.begin_undo(), Some(Operation::Trash(path("file_b.txt"))));
    m.finish_undo(Change::Trashed(WorktreeId(1), TrashedEntry { id: 2 }));
    assert!(!m.can_undo());
}

#[test]
fn rename_undo_redo() {
    let mut m = UndoManager::new();
    m.record(vec![Change::Renamed(path("a.txt"), path("renamed.txt"))]);
    let op = m.begin_undo().unwrap();
    assert_eq!(op, Operation::Rename(path("renamed.txt"), path("a.txt")));
    m.finish_undo(succeed(op, 0, ""));
    assert!(m.can_redo());
    assert!(!m.can_undo());
    let op = m.begin_redo().unwrap();
    assert_eq!(op, Operation::Rename(path("a.txt"), path("renamed.txt")));
    m.finish_redo(succeed(op, 0, ""));
    assert!(m.can_undo());
    assert!(!m.can_redo());
    // The round trip leaves the history as it was.
    assert_eq!(m.begin_undo(), Some(Operation::Rename(path("renamed.txt"), path("a.txt"))));
}

#[test]
fn create_undo_redo() {
    let mut m = UndoManager::new();
    m.record(vec![Change::Created(path("new.txt"))]);
    let op = m.begin_undo().unwrap();
    assert_eq!(op, Operation::Trash(path("new.txt")));
    m.finish_undo(succeed(op, 7, ""));
    let op = m.begin_redo().unwrap();
    assert_eq!(op, Operation::Restore(WorktreeId(1), TrashedEntry { id: 7 }));
    m.finish_redo(succeed(op, 0, "new.txt"));
    // What was restored is trashed by the next undo.
    assert_eq!(m.begin_undo(), Some(Operation::Trash(path("new.txt"))));
}

#[test]
fn two_sequential_undos() {
    let mut m = UndoManager::new();
    m.record(vec![Change::Renamed(path("a.txt"), path("x.txt"))]);
    m.record(vec![Change::Created(path("y.txt"))]);
    assert!(undo(&mut m, 1, "").is_some());
    assert!(m.can_undo());
    assert!(m.can_redo());
    let op = m.begin_undo().unwrap();
    assert_eq!(op, Operation::Rename(path("x.txt"), path("a.txt")));
    m.finish_undo(succeed(op, 0, ""));
    assert!(!m.can_undo());
    assert_eq!(m.len(), 2);
}

#[test]
fn undo_without_history_does_nothing() {
    let mut m = UndoManager::new();
    assert!(undo(&mut m, 0, "").is_none());
    assert!(redo(&mut m, 0, "").is_none());
    assert_eq!(m.len(), 0);
}

#[test]
fn batch_inverse_runs_in_reverse_order() {
    let mut m = UndoManager::new();
    m.record(vec![
        Change::Renamed(path("1.txt"), path("a.txt")),
        Change::Renamed(path("2.txt"), path("b.txt")),
    ]);
    assert_eq!(m.len(), 1);
    let op = m.begin_undo().unwrap();
    assert_eq!(
        op,
        Operation::Batch(vec![
            Operation::Rename(path("b.txt"), path("2.txt")),
            Operation::Rename(path("a.txt"), path("1.txt")),
        ])
    );
    let change = succeed(op, 0, "");
    assert_eq!(
        change,
        Change::Batched(vec![
            Change::Renamed(path("b.txt"), path("2.txt")),
            Change::Renamed(path("a.txt"), path("1.txt")),
        ])
    );
    m.finish_undo(change);
    assert_eq!(
        m.begin_redo(),
        Some(Operation::Batch(vec![
            Operation::Rename(path("1.txt"), path("a.txt")),
            Operation::Rename(path("2.txt"), path("b.txt")),
        ]))
    );
}

#[test]
fn documented_example_history() {
    let mut m = UndoManager::new();
    m.record(vec![Change::Created(path("src/main.rs"))]);
    m.record(vec![Change::Renamed(path("README.md"), path("readme.md"))]);
    m.record(vec![Change::Created(path("CONTRIBUTING.md"))]);
    assert_eq!(m.len(), 3);

    let op = m.begin_undo().unwrap();
    assert_eq!(op, Operation::Trash(path("CONTRIBUTING.md")));
    m.finish_undo(Change::Trashed(WorktreeId(1), TrashedEntry { id: 1 }));

    let op = m.begin_undo().unwrap();
    assert_eq!(op, Operation::Rename(path("readme.md"), path("README.md")));
    m.finish_undo(Change::Renamed(path("readme.md"), path("README.md")));

    let op = m.begin_redo().unwrap();
    assert_eq!(op, Operation::Rename(path("README.md"), path("readme.md")));
    m.finish_redo(Change::Renamed(path("README.md"), path("readme.md")));

    let op = m.begin_redo().unwrap();
    assert_eq!(op, Operation::Restore(WorktreeId(1), TrashedEntry { id: 1 }));
    m.finish_redo(Change::Restored(path("CONTRIBUTING.md")));

    assert!(!m.can_redo());
    assert_eq!(m.len(), 3);
    assert_eq!(m.begin_undo(), Some(Operation::Trash(path("CONTRIBUTING.md"))));
}

#[test]
fn failed_undo_drops_the_entry() {
    let mut m = UndoManager::new();
    m.record(vec![Change::Created(path("src/main.rs"))]);
    m.record(vec![Change::Renamed(path("README.md"), path("readme.md"))]);
    m.record(vec![Change::Created(path("CONTRIBUTING.md"))]);
    undo(&mut m, 1, "").unwrap();
    // The rename cannot be undone: nothing is recorded for it.
    let _failed = m.begin_undo().unwrap();
    assert_eq!(m.len(), 2);
    let op = m.begin_redo().unwrap();
    assert_eq!(op, Operation::Restore(WorktreeId(1), TrashedEntry { id: 1 }));
    m.finish_redo(Change::Restored(path("CONTRIBUTING.md")));
    assert!(!m.can_redo());
}

#[test]
fn recording_discards_what_could_be_redone() {
    let mut m = UndoManager::new();
    m.record(vec![Change::Created(path("a"))]);
    m.record(vec![Change::Created(path("b"))]);
    undo(&mut m, 1, "").unwrap();
    assert!(m.can_redo());
    m.record(vec![Change::Created(path("c"))]);
    assert!(!m.can_redo());
    assert_eq!(m.len(), 2);
    assert_eq!(m.begin_undo(), Some(Operation::Trash(path("c"))));
}

#[test]
fn leaves_flatten_nested_batches_in_order() {
    let op = Operation::Batch(vec![
        Operation::Create(path("src")),
        Operation::Batch(vec![
            Operation::Create(path("src/a.rs")),
            Operation::Rename(path("x"), path("y")),
        ]),
        Operation::Trash(path("old")),
    ]);
    assert_eq!(
        op.leaves(),
        vec![
            Operation::Create(path("src")),
            Operation::Create(path("src/a.rs")),
            Operation::Rename(path("x"), path("y")),
            Operation::Trash(path("old")),
        ]
    );
    let change = op
        .into_change(vec![
            LeafOutcome::Created,
            LeafOutcome::Created,
            LeafOutcome::Renamed,
            LeafOutcome::Trashed(TrashedEntry { id: 9 }),
        ])
        .unwrap();
    assert_eq!(
        change,
        Change::Batched(vec![
            Change::Created(path("src")),
            Change::Batched(vec![Change::Created(path("src/a.rs")), Change::Renamed(path("x"), path("y"))]),
            Change::Trashed(WorktreeId(1), TrashedEntry { id: 9 }),
        ])
    );
}

#[test]
fn into_change_refuses_outcomes_that_do_not_match() {
    let op = Operation::Batch(vec![Operation::Create(path("a")), Operation::Create(path("b"))]);
    assert_eq!(op.into_change(vec![LeafOutcome::Created]), None);
    let op = Operation::Create(path("a"));
    assert_eq!(op.into_change(vec![LeafOutcome::Renamed]), None);
    let op = Operation::Trash(path("a"));
    assert_eq!(op.into_change(vec![LeafOutcome::Created, LeafOutcome::Created]), None);
}

#[test]
fn inverse_of_each_change() {
    assert_eq!(Change::Created(path("a")).to_inverse(), Operation::Trash(path("a")));
    assert_eq!(
        Change::Trashed(WorktreeId(2), TrashedEntry { id: 5 }).to_inverse(),
        Operation::Restore(WorktreeId(2), TrashedEntry { id: 5 })
    );
    assert_eq!(Change::Renamed(path("a"), path("b")).to_inverse(), Operation::Rename(path("b"), path("a")));
    assert_eq!(Change::Restored(path("a")).to_inverse(), Operation::Trash(path("a")));
}

#[test]
fn zero_limit_still_keeps_the_last_change() {
    let mut m = UndoManager::new_with_limit(0);
    m.record(vec![Change::Created(path("a"))]);
    m.record(vec![Change::Created(path("b"))]);
    assert_eq!(m.len(), 1);
    assert!(!m.has_room());
    assert_eq!(m.begin_undo(), Some(Operation::Trash(path("b"))));
    assert!(m.has_room());
}

#[test]
fn run_stops_at_the_first_failure() {
    let op = Operation::Batch(vec![
        Operation::Create(path("a")),
        Operation::Rename(path("b"), path("c")),
        Operation::Create(path("d")),
    ]);
    let mut run = OperationRun::start(op);
    assert_eq!(run.next_leaf(), Some(&Operation::Create(path("a"))));
    run.succeeded(LeafOutcome::Created);
    assert_eq!(run.next_leaf(), Some(&Operation::Rename(path("b"), path("c"))));
    run.failed();
    // Nothing after the failed step runs, and the run amounts to no change.
    assert_eq!(run.next_leaf(), None);
    assert_eq!(run.finish(), None);
}

#[test]
fn run_of_successful_steps_amounts_to_the_change() {
    let op = Operation::Batch(vec![Operation::Create(path("a")), Operation::Trash(path("b"))]);
    let mut run = OperationRun::start(op);
    run.succeeded(LeafOutcome::Created);
    assert_eq!(run.next_leaf(), Some(&Operation::Trash(path("b"))));
    run.succeeded(LeafOutcome::Trashed(TrashedEntry { id: 3 }));
    assert_eq!(run.next_leaf(), None);
    assert_eq!(
        run.finish(),
        Some(Change::Batched(vec![
            Change::Created(path("a")),
            Change::Trashed(WorktreeId(1), TrashedEntry { id: 3 }),
        ]))
    );
}

# project_tools

Verified pieces of an editor's project tooling, written in Verus.

- `src/undo.rs`: the undo history of a project panel. Undo and redo are split
  into a step that takes a change out of the history and hands back the
  operation that reverts it, and a step that records what performing that
  operation changed.
- `src/thread_picker/`: the pickers that choose the git branch and the worktree
  that a new agent thread starts in: which entries they offer, in which order,
  which one is selected and what choosing it means.
- `src/compliance/`: the release compliance check: reading `git log` output,
  the pull request number of a squash-merged commit, the co-authors of a
  commit, the GitHub query for commit authors, the decision whether a commit
  was reviewed by members of the organization, and the report over all
  commits.
- `src/text.rs`: searching, splitting, trimming and decimal numbers over
  characters.

`app/` is the command-line program around the compliance check: it runs `git`,
talks to GitHub and writes the report, and hands every decision to the
library.

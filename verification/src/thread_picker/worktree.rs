//! The picker of the worktree that a new thread starts in.
use crate::text::chars_of;
use crate::thread_picker::EntryColor;
use crate::thread_picker::EntryIcon;
use crate::thread_picker::EntryView;
use crate::thread_picker::EntryViewV;
use crate::thread_picker::FuzzyMatch;
use crate::thread_picker::GitWorktree;
use crate::thread_picker::GitWorktreeV;
use crate::thread_picker::StartThreadIn;
use crate::thread_picker::StartThreadInV;
use crate::thread_picker::clone_opt;
use crate::thread_picker::clone_positions;
use crate::thread_picker::contains_same_path;
use crate::thread_picker::has_same_path;
use crate::thread_picker::dashed;
use crate::thread_picker::dashed_exec;
use crate::thread_picker::opt_view;
use crate::thread_picker::worktree_views;
use vstd::prelude::*;
use vstd::string::StringExecFns;

verus! {

/// An entry of the worktree picker.
#[derive(Debug, PartialEq, Eq)]
pub enum ThreadWorktreeEntry {
    /// Start in the project's own worktree.
    CurrentWorktree,
    /// Start in a new git worktree.
    NewWorktree,
    /// Start in an existing linked worktree; `positions` are where a query
    /// matched its name.
    LinkedWorktree { worktree: GitWorktree, positions: Vec<usize> },
    /// Start in a new git worktree with this name.
    CreateNamed { name: String },
}

pub enum WorktreeEntryV {
    CurrentWorktree,
    NewWorktree,
    LinkedWorktree { worktree: GitWorktreeV, positions: Seq<usize> },
    CreateNamed { name: Seq<char> },
}

impl View for ThreadWorktreeEntry {
    type V = WorktreeEntryV;

    open spec fn view(&self) -> WorktreeEntryV {
        match self {
            ThreadWorktreeEntry::CurrentWorktree => WorktreeEntryV::CurrentWorktree,
            ThreadWorktreeEntry::NewWorktree => WorktreeEntryV::NewWorktree,
            ThreadWorktreeEntry::LinkedWorktree { worktree, positions } => WorktreeEntryV::LinkedWorktree {
                worktree: worktree@,
                positions: positions@,
            },
            ThreadWorktreeEntry::CreateNamed { name } => WorktreeEntryV::CreateNamed { name: name@ },
        }
    }
}

pub open spec fn entry_views(v: Seq<ThreadWorktreeEntry>) -> Seq<WorktreeEntryV> {
    v.map_values(|e: ThreadWorktreeEntry| e@)
}

pub open spec fn string_views(v: Seq<String>) -> Seq<Seq<char>> {
    v.map_values(|s: String| s@)
}

/// The state of the worktree picker.
pub struct ThreadWorktreePickerDelegate {
    matches: Vec<ThreadWorktreeEntry>,
    all_worktrees: Option<Vec<GitWorktree>>,
    project_worktree_paths: Vec<String>,
    selected_index: usize,
    preserved_branch_name: Option<String>,
    preserved_start_point: Option<String>,
    has_git_repo: bool,
    is_via_collab: bool,
}

pub struct WorktreePickerV {
    pub matches: Seq<WorktreeEntryV>,
    pub all_worktrees: Option<Seq<GitWorktreeV>>,
    pub project_worktree_paths: Seq<Seq<char>>,
    pub selected_index: nat,
    pub preserved_branch_name: Option<Seq<char>>,
    pub preserved_start_point: Option<Seq<char>>,
    pub has_git_repo: bool,
    pub is_via_collab: bool,
}

impl View for ThreadWorktreePickerDelegate {
    type V = WorktreePickerV;

    closed spec fn view(&self) -> WorktreePickerV {
        WorktreePickerV {
            matches: entry_views(self.matches@),
            all_worktrees: match self.all_worktrees {
                Some(v) => Some(worktree_views(v@)),
                None => None,
            },
            project_worktree_paths: string_views(self.project_worktree_paths@),
            selected_index: self.selected_index as nat,
            preserved_branch_name: opt_view(self.preserved_branch_name),
            preserved_start_point: opt_view(self.preserved_start_point),
            has_git_repo: self.has_git_repo,
            is_via_collab: self.is_via_collab,
        }
    }
}

/// The two entries that are always offered.
pub open spec fn fixed_entries() -> Seq<WorktreeEntryV> {
    seq![WorktreeEntryV::CurrentWorktree, WorktreeEntryV::NewWorktree]
}

/// The picker before the worktrees are known.
pub open spec fn worktree_picker_start(
    target: StartThreadInV,
    has_git_repo: bool,
    is_via_collab: bool,
    paths: Seq<Seq<char>>,
) -> WorktreePickerV {
    let (branch, start) = match target {
        StartThreadInV::NewWorktree { branch_name, start_point, .. } => (branch_name, start_point),
        _ => (None, None),
    };
    WorktreePickerV {
        matches: fixed_entries(),
        all_worktrees: None,
        project_worktree_paths: paths,
        selected_index: if target is NewWorktree { 1 } else { 0 },
        preserved_branch_name: branch,
        preserved_start_point: start,
        has_git_repo,
        is_via_collab,
    }
}

/// The worktrees to keep: those on a branch.
pub open spec fn worktrees_on_branch(ws: Seq<GitWorktreeV>) -> Seq<GitWorktreeV> {
    ws.filter_map(|w: GitWorktreeV| if w.ref_name is Some { Some(w) } else { None::<GitWorktreeV> })
}

/// The worktrees to offer: those that are not the project's own.
pub open spec fn linked_worktrees(ws: Seq<GitWorktreeV>, paths: Seq<Seq<char>>) -> Seq<GitWorktreeV> {
    ws.filter_map(linked_keep(paths))
}

pub open spec fn linked_keep(paths: Seq<Seq<char>>) -> spec_fn(GitWorktreeV) -> Option<GitWorktreeV> {
    |w: GitWorktreeV| if has_same_path(paths, w.path) { None::<GitWorktreeV> } else { Some(w) }
}

pub open spec fn linked_entry_fn() -> spec_fn(GitWorktreeV) -> WorktreeEntryV {
    |w: GitWorktreeV| WorktreeEntryV::LinkedWorktree { worktree: w, positions: Seq::empty() }
}

pub open spec fn match_entry_fn(linked: Seq<GitWorktreeV>) -> spec_fn((int, Seq<usize>)) -> WorktreeEntryV {
    |m: (int, Seq<usize>)| WorktreeEntryV::LinkedWorktree { worktree: linked[m.0], positions: m.1 }
}

pub open spec fn fuzzy_views(v: Seq<FuzzyMatch>) -> Seq<(int, Seq<usize>)> {
    v.map_values(|m: FuzzyMatch| (m.candidate_id as int, m.positions@))
}

/// The entries for a query, given the fuzzy matches among the linked
/// worktrees' names: the fixed entries, the matching worktrees in the order
/// of the matches, and, unless the best match is named exactly as the query,
/// the entry that creates a worktree named after it.
pub open spec fn worktree_query_entries(query: Seq<char>, linked: Seq<GitWorktreeV>, found: Seq<(int, Seq<usize>)>) -> Seq<WorktreeEntryV> {
    let base = fixed_entries() + found.map_values(match_entry_fn(linked));
    let exact = found.len() > 0 && linked[found[0].0].display_name == query;
    if query.len() > 0 && !exact {
        base.push(WorktreeEntryV::CreateNamed { name: dashed(query) })
    } else {
        base
    }
}

/// The entries for a query always start with the two fixed entries, so the
/// entry that finishing a query selects is one of them.
pub proof fn lemma_query_entries_start_fixed(query: Seq<char>, linked: Seq<GitWorktreeV>, found: Seq<(int, Seq<usize>)>)
    ensures
        worktree_query_entries(query, linked, found).len() >= 2,
        worktree_query_entries(query, linked, found).take(2) == fixed_entries(),
{
    let m = worktree_query_entries(query, linked, found);
    assert(m[0] == WorktreeEntryV::CurrentWorktree);
    assert(m[1] == WorktreeEntryV::NewWorktree);
    assert(m.take(2) =~= fixed_entries());
}

/// Where the chosen entry starts the thread; `None` when nothing is chosen.
pub open spec fn worktree_confirmation(v: WorktreePickerV) -> Option<StartThreadInV> {
    if v.selected_index >= v.matches.len() {
        None
    } else {
        match v.matches[v.selected_index as int] {
            WorktreeEntryV::CurrentWorktree => Some(StartThreadInV::LocalProject),
            WorktreeEntryV::NewWorktree => Some(StartThreadInV::NewWorktree {
                worktree_name: None,
                branch_name: v.preserved_branch_name,
                start_point: v.preserved_start_point,
            }),
            WorktreeEntryV::LinkedWorktree { worktree, .. } => Some(StartThreadInV::LinkedWorktree {
                path: worktree.path,
                display_name: worktree.display_name,
            }),
            WorktreeEntryV::CreateNamed { name } => Some(StartThreadInV::NewWorktree {
                worktree_name: Some(name),
                branch_name: v.preserved_branch_name,
                start_point: v.preserved_start_point,
            }),
        }
    }
}

/// Every confirmation that starts a new worktree, whether through the
/// new-worktree entry or through an entry that names the worktree, keeps the
/// branch and the start point that the picker was opened with; only a named
/// entry names the worktree, and with its own name.
pub proof fn lemma_new_worktree_keeps_branch_and_start_point(v: WorktreePickerV)
    ensures
        worktree_confirmation(v) matches Some(StartThreadInV::NewWorktree { worktree_name, branch_name, start_point })
            ==> branch_name == v.preserved_branch_name && start_point == v.preserved_start_point
            && v.selected_index < v.matches.len()
            && match v.matches[v.selected_index as int] {
                WorktreeEntryV::NewWorktree => worktree_name is None,
                WorktreeEntryV::CreateNamed { name } => worktree_name == Some(name),
                _ => false,
            },
{
}

/// The first line of a text: up to the first line feed, without a carriage
/// return before it.
pub open spec fn first_line(s: Seq<char>) -> Seq<char> {
    match crate::text::find_from(s, seq!['\n'], 0) {
        Some(i) => {
            let line = s.take(i);
            if line.len() > 0 && line.last() == '\r' {
                line.drop_last()
            } else {
                line
            }
        },
        None => s,
    }
}

/// The number of bytes of a text in UTF-8.
pub open spec fn utf8_len(s: Seq<char>) -> nat {
    vstd::utf8::encode_utf8(s).len()
}

pub open spec fn below(n: nat) -> spec_fn(usize) -> Option<usize> {
    |p: usize| if p < n { Some(p) } else { None::<usize> }
}

/// What an entry of the worktree picker shows in place `ix`.
pub open spec fn worktree_entry_view(e: WorktreeEntryV, ix: nat, new_worktree_disabled: bool) -> EntryViewV {
    match e {
        WorktreeEntryV::CurrentWorktree => EntryViewV {
            element_id: "current-worktree"@,
            label: "Current Worktree"@,
            highlight_positions: Seq::empty(),
            disabled: false,
            icon: EntryIcon::Folder,
            icon_color: EntryColor::Muted,
            label_color: EntryColor::Default,
            tooltip: None,
        },
        WorktreeEntryV::NewWorktree => EntryViewV {
            element_id: "new-worktree"@,
            label: "New Git Worktree"@,
            highlight_positions: Seq::empty(),
            disabled: new_worktree_disabled,
            icon: EntryIcon::Plus,
            icon_color: if new_worktree_disabled { EntryColor::Disabled } else { EntryColor::Muted },
            label_color: if new_worktree_disabled { EntryColor::Disabled } else { EntryColor::Default },
            tooltip: None,
        },
        WorktreeEntryV::LinkedWorktree { worktree, positions } => {
            let line = first_line(worktree.display_name);
            EntryViewV {
                element_id: "linked-worktree-"@ + crate::text::decimal(ix),
                label: line,
                highlight_positions: positions.filter_map(below(utf8_len(line))),
                disabled: false,
                icon: EntryIcon::GitWorktree,
                icon_color: EntryColor::Muted,
                label_color: EntryColor::Default,
                tooltip: None,
            }
        },
        WorktreeEntryV::CreateNamed { name } => EntryViewV {
            element_id: "create-named-worktree"@,
            label: "Create Worktree: \""@ + name + "\"\u{2026}"@,
            highlight_positions: Seq::empty(),
            disabled: false,
            icon: EntryIcon::Plus,
            icon_color: EntryColor::Accent,
            label_color: EntryColor::Default,
            tooltip: None,
        },
    }
}

/// A query that waits for its fuzzy matches: the query and the linked
/// worktrees as they were when it came.
#[derive(Debug)]
pub struct WorktreeQuery {
    query: String,
    linked: Vec<GitWorktree>,
}

pub struct WorktreeQueryV {
    pub query: Seq<char>,
    pub linked: Seq<GitWorktreeV>,
}

impl View for WorktreeQuery {
    type V = WorktreeQueryV;

    closed spec fn view(&self) -> WorktreeQueryV {
        WorktreeQueryV { query: self.query@, linked: worktree_views(self.linked@) }
    }
}

impl WorktreeQuery {
    pub fn query(&self) -> (r: &str)
        ensures
            r@ == self@.query,
    {
        self.query.as_str()
    }

    /// The strings to match the query against: the worktrees' names, the
    /// candidate id of each being its position.
    pub fn candidates(&self) -> (r: Vec<String>)
        ensures
            string_views(r@) == self@.linked.map_values(|w: GitWorktreeV| w.display_name),
    {
        let mut r: Vec<String> = Vec::new();
        let mut i: usize = 0;
        while i < self.linked.len()
            invariant
                i <= self.linked.len(),
                string_views(r@) == worktree_views(self.linked@).take(i as int).map_values(|w: GitWorktreeV| w.display_name),
            decreases self.linked.len() - i,
        {
            let ghost old_r = r@;
            let name = self.linked[i].display_name.clone();
            r.push(name);
            assert(string_views(r@) =~= string_views(old_r).push(name@));
            assert(worktree_views(self.linked@).take(i + 1).map_values(|w: GitWorktreeV| w.display_name) =~= worktree_views(self.linked@).take(i as int).map_values(|w: GitWorktreeV| w.display_name).push(self.linked@[i as int]@.display_name));
            i = i + 1;
        }
        assert(worktree_views(self.linked@).take(self.linked.len() as int) =~= worktree_views(self.linked@));
        r
    }
}

fn fixed_vec() -> (r: Vec<ThreadWorktreeEntry>)
    ensures
        entry_views(r@) == fixed_entries(),
{
    let r = vec![ThreadWorktreeEntry::CurrentWorktree, ThreadWorktreeEntry::NewWorktree];
    assert(entry_views(r@) =~= fixed_entries());
    r
}

/// The first line of `s`, as `first_line` says.
fn first_line_exec(s: &String) -> (r: String)
    ensures
        r@ == first_line(s@),
{
    let cs = chars_of(s.as_str());
    let nl = chars_of("\n");
    proof {
        reveal_strlit("\n");
        assert(nl@ =~= seq!['\n']);
    }
    match crate::text::find_from_exec(&cs, &nl, 0) {
        Some(i) => {
            proof {
                crate::text::lemma_find_from_bounds(cs@, nl@, 0);
            }
            let end = if i > 0 && cs[i - 1] == '\r' {
                i - 1
            } else {
                i
            };
            let r = crate::text::string_of_range(&cs, 0, end);
            proof {
                let line = cs@.take(i as int);
                if i > 0 && cs@[i - 1] == '\r' {
                    assert(line.drop_last() =~= cs@.subrange(0, end as int));
                } else {
                    assert(line =~= cs@.subrange(0, end as int));
                }
            }
            r
        },
        None => s.clone(),
    }
}

impl ThreadWorktreePickerDelegate {
    /// The picker for a thread that would start at `current_target`, in a
    /// project with worktrees at `project_worktree_paths`.
    pub fn new(
        current_target: &StartThreadIn,
        has_git_repo: bool,
        is_via_collab: bool,
        project_worktree_paths: Vec<String>,
    ) -> (r: Self)
        ensures
            r@ == worktree_picker_start(current_target@, has_git_repo, is_via_collab, string_views(project_worktree_paths@)),
    {
        let (preserved_branch_name, preserved_start_point) = match current_target {
            StartThreadIn::NewWorktree { branch_name, start_point, .. } => (clone_opt(branch_name), clone_opt(start_point)),
            _ => (None, None),
        };
        let selected_index = match current_target {
            StartThreadIn::LocalProject => 0,
            StartThreadIn::NewWorktree { .. } => 1,
            _ => 0,
        };
        ThreadWorktreePickerDelegate {
            matches: fixed_vec(),
            all_worktrees: None,
            project_worktree_paths,
            selected_index,
            preserved_branch_name,
            preserved_start_point,
            has_git_repo,
            is_via_collab,
        }
    }

    pub fn match_count(&self) -> (r: usize)
        ensures
            r == self@.matches.len(),
    {
        self.matches.len()
    }

    pub fn selected_index(&self) -> (r: usize)
        ensures
            r == self@.selected_index,
    {
        self.selected_index
    }

    pub fn set_selected_index(&mut self, ix: usize)
        ensures
            final(self)@ == (WorktreePickerV { selected_index: ix as nat, ..old(self)@ }),
    {
        self.selected_index = ix;
    }

    /// The entries.
    pub fn matches(&self) -> (r: &Vec<ThreadWorktreeEntry>)
        ensures
            entry_views(r@) == self@.matches,
    {
        &self.matches
    }

    /// Takes in the repository's worktrees; those on a branch are kept.
    pub fn set_worktrees(&mut self, worktrees: Vec<GitWorktree>)
        ensures
            final(self)@ == (WorktreePickerV {
                all_worktrees: Some(worktrees_on_branch(worktree_views(worktrees@))),
                ..old(self)@
            }),
    {
        let ghost wv = worktree_views(worktrees@);
        let ghost f = |w: GitWorktreeV| if w.ref_name is Some { Some(w) } else { None::<GitWorktreeV> };
        let mut kept: Vec<GitWorktree> = Vec::new();
        let mut i: usize = 0;
        while i < worktrees.len()
            invariant
                i <= worktrees.len(),
                wv == worktree_views(worktrees@),
                f == (|w: GitWorktreeV| if w.ref_name is Some { Some(w) } else { None::<GitWorktreeV> }),
                worktree_views(kept@) == wv.take(i as int).filter_map(f),
            decreases worktrees.len() - i,
        {
            proof {
                wv.lemma_filter_map_take_succ(f, i as int);
            }
            if worktrees[i].ref_name.is_some() {
                let ghost old_k = kept@;
                let w = worktrees[i].clone();
                kept.push(w);
                assert(worktree_views(kept@) =~= worktree_views(old_k).push(w@));
                assert(worktree_views(kept@) =~= wv.take(i + 1).filter_map(f));
            }
            i = i + 1;
        }
        assert(wv.take(worktrees.len() as int) =~= wv);
        self.all_worktrees = Some(kept);
    }

    /// The worktrees that are not the project's own.
    fn linked(&self, all: &Vec<GitWorktree>) -> (r: Vec<GitWorktree>)
        ensures
            worktree_views(r@) == linked_worktrees(worktree_views(all@), self@.project_worktree_paths),
    {
        let ghost wv = worktree_views(all@);
        let ghost f = linked_keep(self@.project_worktree_paths);
        let mut r: Vec<GitWorktree> = Vec::new();
        let mut i: usize = 0;
        while i < all.len()
            invariant
                i <= all.len(),
                wv == worktree_views(all@),
                f == linked_keep(self@.project_worktree_paths),
                worktree_views(r@) == wv.take(i as int).filter_map(f),
            decreases all.len() - i,
        {
            proof {
                wv.lemma_filter_map_take_succ(f, i as int);
            }
            if !contains_same_path(&self.project_worktree_paths, &all[i].path) {
                let ghost old_r = r@;
                let w = all[i].clone();
                r.push(w);
                assert(worktree_views(r@) =~= worktree_views(old_r).push(w@));
                assert(worktree_views(r@) =~= wv.take(i + 1).filter_map(f));
            }
            i = i + 1;
        }
        assert(wv.take(all.len() as int) =~= wv);
        r
    }

    /// Updates the entries for `query`. Without a query, or before the
    /// worktrees are known, this is done at once and `None` comes back; else
    /// the query comes back, to be matched against its candidates and
    /// finished by [`ThreadWorktreePickerDelegate::apply_fuzzy_matches`].
    pub fn update_matches(&mut self, query: &str) -> (r: Option<WorktreeQuery>)
        ensures
            match old(self)@.all_worktrees {
                None => r is None && final(self)@ == (WorktreePickerV { matches: fixed_entries(), ..old(self)@ }),
                Some(all) => {
                    let linked = linked_worktrees(all, old(self)@.project_worktree_paths);
                    if query@.len() == 0 {
                        let m = fixed_entries() + linked.map_values(linked_entry_fn());
                        r is None && final(self)@ == (WorktreePickerV {
                            matches: m,
                            selected_index: if old(self)@.selected_index >= m.len() { 0 } else { old(self)@.selected_index },
                            ..old(self)@
                        })
                    } else {
                        r matches Some(q) && q@ == (WorktreeQueryV { query: query@, linked }) && final(self)@ == old(self)@
                    }
                },
            },
    {
        let linked = match &self.all_worktrees {
            None => {
                self.matches = fixed_vec();
                return None;
            },
            Some(all) => self.linked(all),
        };
        if !query.is_empty() {
            return Some(WorktreeQuery { query: query.to_owned(), linked });
        }
        let ghost lv = worktree_views(linked@);
        let mut matches = fixed_vec();
        let mut i: usize = 0;
        assert(entry_views(matches@) =~= fixed_entries() + lv.take(0).map_values(linked_entry_fn()));
        while i < linked.len()
            invariant
                i <= linked.len(),
                lv == worktree_views(linked@),
                entry_views(matches@) == fixed_entries() + lv.take(i as int).map_values(linked_entry_fn()),
            decreases linked.len() - i,
        {
            let ghost old_m = matches@;
            let e = ThreadWorktreeEntry::LinkedWorktree { worktree: linked[i].clone(), positions: Vec::new() };
            matches.push(e);
            proof {
                assert(e@ == linked_entry_fn()(lv[i as int]));
                assert(entry_views(matches@) =~= entry_views(old_m).push(e@));
                assert(lv.take(i + 1).map_values(linked_entry_fn()) =~= lv.take(i as int).map_values(linked_entry_fn()).push(e@));
            }
            i = i + 1;
        }
        assert(lv.take(linked.len() as int) =~= lv);
        self.matches = matches;
        if self.selected_index >= self.matches.len() {
            self.selected_index = 0;
        }
        None
    }

    /// Finishes a query with its fuzzy matches among the query's candidates;
    /// the first matching worktree is selected where there is one.
    pub fn apply_fuzzy_matches(&mut self, query: WorktreeQuery, found: Vec<FuzzyMatch>)
        requires
            forall|i: int| 0 <= i < found.len() ==> (#[trigger] found@[i]).candidate_id < query@.linked.len(),
        ensures
            ({
                let m = worktree_query_entries(query@.query, query@.linked, fuzzy_views(found@));
                final(self)@ == (WorktreePickerV {
                    matches: m,
                    selected_index: if m.len() > 2 { 2 } else { 0 },
                    ..old(self)@
                })
            }),
    {
        let ghost qv = query@;
        let ghost fv = fuzzy_views(found@);
        let mut matches = fixed_vec();
        let mut i: usize = 0;
        assert(entry_views(matches@) =~= fixed_entries() + fv.take(0).map_values(match_entry_fn(qv.linked)));
        while i < found.len()
            invariant
                i <= found.len(),
                qv == query@,
                fv == fuzzy_views(found@),
                forall|k: int| 0 <= k < found.len() ==> (#[trigger] found@[k]).candidate_id < query@.linked.len(),
                entry_views(matches@) == fixed_entries() + fv.take(i as int).map_values(match_entry_fn(qv.linked)),
            decreases found.len() - i,
        {
            let id = found[i].candidate_id;
            let w = query.linked[id].clone();
            let positions = clone_positions(&found[i].positions);
            let ghost old_m = matches@;
            let e = ThreadWorktreeEntry::LinkedWorktree { worktree: w, positions };
            matches.push(e);
            proof {
                assert(worktree_views(query.linked@)[id as int] == query.linked@[id as int]@);
                assert(e@ == match_entry_fn(qv.linked)(fv[i as int]));
                assert(entry_views(matches@) =~= entry_views(old_m).push(e@));
                assert(fv.take(i + 1).map_values(match_entry_fn(qv.linked)) =~= fv.take(i as int).map_values(match_entry_fn(qv.linked)).push(e@));
            }
            i = i + 1;
        }
        assert(fv.take(found.len() as int) =~= fv);
        let exact = if found.len() > 0 {
            let id = found[0].candidate_id;
            assert(worktree_views(query.linked@)[id as int] == query.linked@[id as int]@);
            query.linked[id].display_name == query.query
        } else {
            false
        };
        if !query.query.as_str().is_empty() && !exact {
            let name = dashed_exec(query.query.as_str());
            let ghost old_m = matches@;
            let e = ThreadWorktreeEntry::CreateNamed { name };
            matches.push(e);
            assert(entry_views(matches@) =~= entry_views(old_m).push(e@));
        }
        self.matches = matches;
        if self.matches.len() > 2 {
            self.selected_index = 2;
        } else {
            self.selected_index = 0;
        }
    }

    /// Where the chosen entry starts the thread; `None` when nothing is chosen.
    pub fn confirm(&self) -> (r: Option<StartThreadIn>)
        ensures
            match r {
                Some(t) => worktree_confirmation(self@) == Some(t@),
                None => worktree_confirmation(self@) is None,
            },
    {
        if self.selected_index >= self.matches.len() {
            return None;
        }
        let entry = &self.matches[self.selected_index];
        assert(self@.matches[self.selected_index as int] == entry@);
        match entry {
            ThreadWorktreeEntry::CurrentWorktree => Some(StartThreadIn::LocalProject),
            ThreadWorktreeEntry::NewWorktree => Some(StartThreadIn::NewWorktree {
                worktree_name: None,
                branch_name: clone_opt(&self.preserved_branch_name),
                start_point: clone_opt(&self.preserved_start_point),
            }),
            ThreadWorktreeEntry::LinkedWorktree { worktree, .. } => Some(StartThreadIn::LinkedWorktree {
                path: worktree.path.clone(),
                display_name: worktree.display_name.clone(),
            }),
            ThreadWorktreeEntry::CreateNamed { name } => Some(StartThreadIn::NewWorktree {
                worktree_name: Some(name.clone()),
                branch_name: clone_opt(&self.preserved_branch_name),
                start_point: clone_opt(&self.preserved_start_point),
            }),
        }
    }

    /// A separator follows the fixed entries when there are others.
    pub fn separators_after_indices(&self) -> (r: Vec<usize>)
        ensures
            r@ == (if self@.matches.len() > 2 { seq![1usize] } else { Seq::<usize>::empty() }),
    {
        if self.matches.len() > 2 {
            let r = vec![1usize];
            assert(r@ =~= seq![1usize]);
            r
        } else {
            let r: Vec<usize> = Vec::new();
            assert(r@ =~= Seq::<usize>::empty());
            r
        }
    }

    /// What the entry in place `ix` shows; `None` when there is none. A new
    /// worktree cannot be made without a git repository or through
    /// collaboration.
    pub fn render_match(&self, ix: usize) -> (r: Option<EntryView>)
        ensures
            match r {
                Some(v) => ix < self@.matches.len() && v@ == worktree_entry_view(
                    self@.matches[ix as int],
                    ix as nat,
                    !self@.has_git_repo || self@.is_via_collab,
                ),
                None => ix >= self@.matches.len(),
            },
    {
        if ix >= self.matches.len() {
            return None;
        }
        let disabled_new = !self.has_git_repo || self.is_via_collab;
        let entry = &self.matches[ix];
        assert(self@.matches[ix as int] == entry@);
        let v = match entry {
            ThreadWorktreeEntry::CurrentWorktree => EntryView {
                element_id: "current-worktree".to_owned(),
                label: "Current Worktree".to_owned(),
                highlight_positions: Vec::new(),
                disabled: false,
                icon: EntryIcon::Folder,
                icon_color: EntryColor::Muted,
                label_color: EntryColor::Default,
                tooltip: None,
            },
            ThreadWorktreeEntry::NewWorktree => EntryView {
                element_id: "new-worktree".to_owned(),
                label: "New Git Worktree".to_owned(),
                highlight_positions: Vec::new(),
                disabled: disabled_new,
                icon: EntryIcon::Plus,
                icon_color: if disabled_new { EntryColor::Disabled } else { EntryColor::Muted },
                label_color: if disabled_new { EntryColor::Disabled } else { EntryColor::Default },
                tooltip: None,
            },
            ThreadWorktreeEntry::LinkedWorktree { worktree, positions } => {
                let line = first_line_exec(&worktree.display_name);
                let n = line.as_str().as_bytes().len();
                let ghost f = below(utf8_len(line@));
                let mut kept: Vec<usize> = Vec::new();
                let mut i: usize = 0;
                while i < positions.len()
                    invariant
                        i <= positions.len(),
                        n == utf8_len(line@),
                        f == below(utf8_len(line@)),
                        kept@ == positions@.take(i as int).filter_map(f),
                    decreases positions.len() - i,
                {
                    proof {
                        positions@.lemma_filter_map_take_succ(f, i as int);
                    }
                    if positions[i] < n {
                        kept.push(positions[i]);
                    }
                    assert(kept@ =~= positions@.take(i + 1).filter_map(f));
                    i = i + 1;
                }
                assert(positions@.take(positions.len() as int) =~= positions@);
                let mut id = "linked-worktree-".to_owned();
                crate::text::push_decimal(&mut id, ix as u64);
                EntryView {
                    element_id: id,
                    label: line,
                    highlight_positions: kept,
                    disabled: false,
                    icon: EntryIcon::GitWorktree,
                    icon_color: EntryColor::Muted,
                    label_color: EntryColor::Default,
                    tooltip: None,
                }
            },
            ThreadWorktreeEntry::CreateNamed { name } => {
                let mut label = "Create Worktree: \"".to_owned();
                label.append(name.as_str());
                label.append("\"\u{2026}");
                EntryView {
                    element_id: "create-named-worktree".to_owned(),
                    label,
                    highlight_positions: Vec::new(),
                    disabled: false,
                    icon: EntryIcon::Plus,
                    icon_color: EntryColor::Accent,
                    label_color: EntryColor::Default,
                    tooltip: None,
                }
            },
        };
        assert(v@.highlight_positions =~= worktree_entry_view(entry@, ix as nat, disabled_new).highlight_positions);
        Some(v)
    }
}

} // verus!

//! The picker of the branch that a new thread's worktree starts on.
use crate::text::chars_of;
use crate::text::push_char;
use crate::thread_picker::EntryColor;
use crate::thread_picker::EntryIcon;
use crate::thread_picker::EntryView;
use crate::thread_picker::EntryViewV;
use crate::thread_picker::FuzzyMatch;
use crate::thread_picker::GitWorktree;
use crate::thread_picker::GitWorktreeV;
use crate::thread_picker::worktree_views;
use crate::thread_picker::StartThreadIn;
use crate::thread_picker::clone_positions;
use crate::thread_picker::contains_same_path;
use crate::thread_picker::has_same_path;
use crate::thread_picker::dashed;
use crate::thread_picker::dashed_exec;
use crate::thread_picker::StartThreadInV;
use crate::thread_picker::clone_opt;
use crate::thread_picker::opt_view;
use vstd::prelude::*;
use vstd::string::StringExecFns;

verus! {

/// The upstream that a branch tracks.
#[derive(Debug, PartialEq, Eq)]
pub struct Upstream {
    pub ref_name: String,
    /// Whether the upstream is a branch of a remote.
    pub is_remote: bool,
}

/// A git branch, as the repository reports it.
#[derive(Debug, PartialEq, Eq)]
pub struct Branch {
    /// The full reference, such as `refs/heads/main`.
    pub ref_name: String,
    /// The short name, such as `main`.
    pub name: String,
    /// Whether the branch is a remote's branch.
    pub is_remote: bool,
    /// Whether the branch is checked out.
    pub is_head: bool,
    pub upstream: Option<Upstream>,
    /// When the branch's latest commit was made, in seconds since the epoch.
    pub commit_timestamp: Option<i64>,
}

pub struct UpstreamV {
    pub ref_name: Seq<char>,
    pub is_remote: bool,
}

pub struct BranchV {
    pub ref_name: Seq<char>,
    pub name: Seq<char>,
    pub is_remote: bool,
    pub is_head: bool,
    pub upstream: Option<UpstreamV>,
    pub commit_timestamp: Option<i64>,
}

impl View for Branch {
    type V = BranchV;

    open spec fn view(&self) -> BranchV {
        BranchV {
            ref_name: self.ref_name@,
            name: self.name@,
            is_remote: self.is_remote,
            is_head: self.is_head,
            upstream: match self.upstream {
                Some(u) => Some(UpstreamV { ref_name: u.ref_name@, is_remote: u.is_remote }),
                None => None,
            },
            commit_timestamp: self.commit_timestamp,
        }
    }
}

impl Clone for Branch {
    fn clone(&self) -> (r: Self)
        ensures
            r@ == self@,
    {
        let upstream = match &self.upstream {
            Some(u) => Some(Upstream { ref_name: u.ref_name.clone(), is_remote: u.is_remote }),
            None => None,
        };
        Branch {
            ref_name: self.ref_name.clone(),
            name: self.name.clone(),
            is_remote: self.is_remote,
            is_head: self.is_head,
            upstream,
            commit_timestamp: self.commit_timestamp,
        }
    }
}

pub open spec fn branch_views(v: Seq<Branch>) -> Seq<BranchV> {
    v.map_values(|b: Branch| b@)
}

pub open spec fn string_views(v: Seq<String>) -> Seq<Seq<char>> {
    v.map_values(|s: String| s@)
}

pub open spec fn pair_views(v: Seq<(String, String)>) -> Seq<(Seq<char>, Seq<char>)> {
    v.map_values(|p: (String, String)| (p.0@, p.1@))
}

/// What the picker starts from, given where the thread would start now: the
/// name of the entry to select, whether that entry is one to create, and the
/// worktree name to keep.
pub open spec fn initial_selection(target: StartThreadInV) -> (Option<Seq<char>>, bool, Option<Seq<char>>) {
    match target {
        StartThreadInV::NewWorktree { worktree_name, branch_name, start_point } => match (branch_name, start_point) {
            (None, None) => (None, false, worktree_name),
            (None, Some(start_point)) => (Some(start_point), false, worktree_name),
            (Some(branch_name), None) => (Some(branch_name), true, worktree_name),
            (Some(_), Some(start_point)) => (Some(start_point), false, worktree_name),
        },
        _ => (None, false, None),
    }
}

pub open spec fn upstream_is_remote_named(b: BranchV, ref_name: Seq<char>) -> bool {
    match b.upstream {
        Some(u) => u.is_remote && u.ref_name == ref_name,
        None => false,
    }
}

/// Whether some branch tracks a remote branch named `ref_name`.
pub open spec fn is_remote_upstream(branches: Seq<BranchV>, ref_name: Seq<char>) -> bool {
    exists|i: int| 0 <= i < branches.len() && upstream_is_remote_named(#[trigger] branches[i], ref_name)
}

/// The branches to offer: all but the remote branches that a local branch
/// tracks.
pub open spec fn offered_branches(branches: Seq<BranchV>) -> Seq<BranchV> {
    branches.filter_map(offered_keep(branches))
}

pub open spec fn offered_keep(branches: Seq<BranchV>) -> spec_fn(BranchV) -> Option<BranchV> {
    |b: BranchV| if is_remote_upstream(branches, b.ref_name) { None::<BranchV> } else { Some(b) }
}

/// The key that orders the offered branches: local before remote, the
/// checked-out branch first, then the most recently changed first (branches
/// without a commit before those with one).
pub open spec fn branch_key(b: BranchV) -> (int, int, int) {
    (
        if b.is_remote { 1int } else { 0int },
        if b.is_head { 0int } else { 1int },
        match b.commit_timestamp {
            None => -0x1_0000_0000_0000_0000_0000int,
            Some(t) => -(t as int),
        },
    )
}

pub open spec fn key_lt(a: (int, int, int), b: (int, int, int)) -> bool {
    a.0 < b.0 || (a.0 == b.0 && (a.1 < b.1 || (a.1 == b.1 && a.2 < b.2)))
}

/// Whether `out` is `input` sorted by `branch_key`, ties kept in their
/// order: `order` says where each entry of `out` came from.
pub open spec fn stably_sorted_by_key(input: Seq<BranchV>, out: Seq<BranchV>, order: Seq<int>) -> bool {
    &&& order.len() == input.len()
    &&& out.len() == input.len()
    &&& forall|k: int| 0 <= k < order.len() ==> 0 <= #[trigger] order[k] < input.len()
    &&& forall|k: int, l: int| 0 <= k < l < order.len() ==> #[trigger] order[k] != #[trigger] order[l]
    &&& forall|k: int| 0 <= k < out.len() ==> #[trigger] out[k] == input[order[k]]
    &&& forall|k: int, l: int|
        0 <= k < l < order.len() ==> #[trigger] key_lt(branch_key(input[order[k]]), branch_key(input[order[l]]))
            || (branch_key(input[#[trigger] order[k]]) == branch_key(input[order[l]]) && order[k] < order[l])
}

/// The reason why a branch checked out in the worktree at `path` cannot be
/// chosen.
pub open spec fn occupied_reason(path: Seq<char>, project_paths: Seq<Seq<char>>) -> Seq<char> {
    if has_same_path(project_paths, path) {
        "This branch is already checked out in the current project worktree at "@ + path + "."@
    } else {
        "This branch is already checked out in a linked worktree at "@ + path + "."@
    }
}

/// The branches that are checked out in some worktree, each with the reason
/// why it cannot be chosen; where a branch is checked out more than once, the
/// later worktree counts.
pub open spec fn occupied_entries(worktrees: Seq<GitWorktreeV>, project_paths: Seq<Seq<char>>) -> Seq<(Seq<char>, Seq<char>)> {
    worktrees.filter_map(|w: GitWorktreeV| match w.branch_name {
        Some(name) => Some((name, occupied_reason(w.path, project_paths))),
        None => None::<(Seq<char>, Seq<char>)>,
    })
}

/// The value of the last entry with key `k`.
pub open spec fn lookup_last(entries: Seq<(Seq<char>, Seq<char>)>, k: Seq<char>) -> Option<Seq<char>>
    decreases entries.len(),
{
    if entries.len() == 0 {
        None
    } else if entries.last().0 == k {
        Some(entries.last().1)
    } else {
        lookup_last(entries.drop_last(), k)
    }
}

/// The value of the last entry with key `k`.
pub fn lookup_last_exec(entries: &Vec<(String, String)>, k: &str) -> (r: Option<String>)
    ensures
        opt_view(r) == lookup_last(pair_views(entries@), k@),
{
    let ghost es = pair_views(entries@);
    let key = k.to_owned();
    let mut i = entries.len();
    assert(es.take(i as int) =~= es);
    while i > 0
        invariant
            i <= entries.len(),
            es == pair_views(entries@),
            key@ == k@,
            lookup_last(es, k@) == lookup_last(es.take(i as int), k@),
        decreases i,
    {
        proof {
            assert(es.take(i as int).drop_last() =~= es.take(i - 1));
        }
        if entries[i - 1].0 == key {
            return Some(entries[i - 1].1.clone());
        }
        i = i - 1;
    }
    None
}

pub fn initial_selection_exec(target: &StartThreadIn) -> (r: (Option<String>, bool, Option<String>))
    ensures
        (opt_view(r.0), r.1, opt_view(r.2)) == initial_selection(target@),
{
    match target {
        StartThreadIn::NewWorktree { worktree_name, branch_name, start_point } => match (branch_name, start_point) {
            (None, None) => (None, false, clone_opt(worktree_name)),
            (None, Some(start_point)) => (Some(start_point.clone()), false, clone_opt(worktree_name)),
            (Some(branch_name), None) => (Some(branch_name.clone()), true, clone_opt(worktree_name)),
            (Some(_), Some(start_point)) => (Some(start_point.clone()), false, clone_opt(worktree_name)),
        },
        _ => (None, false, None),
    }
}

/// Whether `a` comes before `b` by [`branch_key`].
fn branch_key_lt(a: &Branch, b: &Branch) -> (r: bool)
    ensures
        r == key_lt(branch_key(a@), branch_key(b@)),
{
    if a.is_remote != b.is_remote {
        return !a.is_remote;
    }
    if a.is_head != b.is_head {
        return a.is_head;
    }
    match (a.commit_timestamp, b.commit_timestamp) {
        (None, None) => false,
        (None, Some(_)) => true,
        (Some(_), None) => false,
        (Some(x), Some(y)) => y < x,
    }
}

pub open spec fn idx_lt(input: Seq<BranchV>, x: int, y: int) -> bool {
    key_lt(branch_key(input[x]), branch_key(input[y])) || (branch_key(input[x]) == branch_key(input[y]) && x < y)
}

pub open spec fn sorted_prefix_order(input: Seq<BranchV>, order: Seq<int>, n: int) -> bool {
    &&& order.len() == n
    &&& forall|k: int| 0 <= k < order.len() ==> 0 <= #[trigger] order[k] < n
    &&& forall|k: int, l: int| 0 <= k < l < order.len() ==> #[trigger] order[k] != #[trigger] order[l]
    &&& forall|k: int, l: int| 0 <= k < l < order.len() ==> idx_lt(input, #[trigger] order[k], #[trigger] order[l])
}

proof fn lemma_insert_keeps_sorted(input: Seq<BranchV>, order: Seq<int>, n: int, p: int)
    requires
        0 <= n < input.len(),
        sorted_prefix_order(input, order, n),
        0 <= p <= order.len(),
        forall|q: int| 0 <= q < p ==> !key_lt(branch_key(input[n]), branch_key(input[#[trigger] order[q]])),
        p < order.len() ==> key_lt(branch_key(input[n]), branch_key(input[order[p]])),
    ensures
        sorted_prefix_order(input, order.insert(p, n), n + 1),
{
    let o2 = order.insert(p, n);
    let kn = branch_key(input[n]);
    assert forall|k: int| 0 <= k < o2.len() implies 0 <= #[trigger] o2[k] < n + 1 by {
        if k < p {
            assert(o2[k] == order[k]);
        } else if k > p {
            assert(o2[k] == order[k - 1]);
        }
    }
    assert forall|k: int, l: int| 0 <= k < l < o2.len() implies #[trigger] o2[k] != #[trigger] o2[l] && idx_lt(input, o2[k], o2[l]) by {
        if l < p {
            assert(o2[k] == order[k] && o2[l] == order[l]);
        } else if l == p {
            assert(o2[k] == order[k]);
            assert(!key_lt(kn, branch_key(input[order[k]])));
        } else if k == p {
            assert(o2[l] == order[l - 1]);
            if l - 1 > p {
                assert(idx_lt(input, order[p], order[l - 1]));
            }
        } else if k < p {
            assert(o2[k] == order[k] && o2[l] == order[l - 1]);
        } else {
            assert(o2[k] == order[k - 1] && o2[l] == order[l - 1]);
        }
    }
}

/// `branches` sorted by [`branch_key`], ties kept in their order.
pub fn sort_branches(branches: &Vec<Branch>) -> (r: Vec<Branch>)
    requires
        forall|i: int| 0 <= i < branches.len() ==> (#[trigger] branches@[i]).commit_timestamp != Some(i64::MIN),
    ensures
        exists|order: Seq<int>| stably_sorted_by_key(branch_views(branches@), branch_views(r@), order),
{
    let ghost input = branch_views(branches@);
    let mut order: Vec<usize> = Vec::new();
    let mut i: usize = 0;
    while i < branches.len()
        invariant
            i <= branches.len(),
            input == branch_views(branches@),
            sorted_prefix_order(input, order@.map_values(|x: usize| x as int), i as int),
        decreases branches.len() - i,
    {
        let ghost o = order@.map_values(|x: usize| x as int);
        let mut p: usize = 0;
        let mut found = false;
        while !found && p < order.len()
            invariant
                i < branches.len(),
                p <= order.len(),
                found ==> p < order.len() && key_lt(branch_key(input[i as int]), branch_key(input[o[p as int]])),
                input == branch_views(branches@),
                o == order@.map_values(|x: usize| x as int),
                sorted_prefix_order(input, o, i as int),
                forall|q: int| 0 <= q < p ==> !key_lt(branch_key(input[i as int]), branch_key(input[#[trigger] o[q]])),
            decreases order.len() - p + (if found { 0int } else { 1int }),
        {
            let j = order[p];
            assert(o[p as int] == j as int);
            if branch_key_lt(&branches[i], &branches[j]) {
                found = true;
            } else {
                p = p + 1;
            }
        }
        proof {
            lemma_insert_keeps_sorted(input, o, i as int, p as int);
        }
        order.insert(p, i);
        assert(order@.map_values(|x: usize| x as int) =~= o.insert(p as int, i as int));
        i = i + 1;
    }
    let ghost o = order@.map_values(|x: usize| x as int);
    let mut out: Vec<Branch> = Vec::new();
    let mut k: usize = 0;
    while k < order.len()
        invariant
            k <= order.len(),
            input == branch_views(branches@),
            o == order@.map_values(|x: usize| x as int),
            sorted_prefix_order(input, o, branches.len() as int),
            out@.len() == k,
            forall|j: int| 0 <= j < k ==> #[trigger] branch_views(out@)[j] == input[o[j]],
        decreases order.len() - k,
    {
        let j = order[k];
        assert(o[k as int] == j as int);
        let b = branches[j].clone();
        let ghost old_out = out@;
        out.push(b);
        proof {
            assert(branch_views(out@)[k as int] == b@);
            assert forall|j: int| 0 <= j < k + 1 implies #[trigger] branch_views(out@)[j] == input[o[j]] by {
                if j < k {
                    assert(out@[j] == old_out[j]);
                    assert(branch_views(old_out)[j] == input[o[j]]);
                    assert(branch_views(out@)[j] == out@[j]@);
                }
            }
        }
        k = k + 1;
    }
    assert(stably_sorted_by_key(input, branch_views(out@), o));
    out
}

/// Whether some branch tracks a remote branch named `ref_name`.
fn is_remote_upstream_exec(branches: &Vec<Branch>, ref_name: &String) -> (r: bool)
    ensures
        r == is_remote_upstream(branch_views(branches@), ref_name@),
{
    let ghost bv = branch_views(branches@);
    let mut i: usize = 0;
    while i < branches.len()
        invariant
            i <= branches.len(),
            bv == branch_views(branches@),
            forall|j: int| 0 <= j < i ==> !upstream_is_remote_named(#[trigger] bv[j], ref_name@),
        decreases branches.len() - i,
    {
        match &branches[i].upstream {
            Some(u) => {
                if u.is_remote && u.ref_name == *ref_name {
                    assert(upstream_is_remote_named(bv[i as int], ref_name@));
                    return true;
                }
            },
            None => {},
        }
        i = i + 1;
    }
    false
}

/// The branches to offer, in the order to offer them.
pub fn offered_branches_exec(branches: &Vec<Branch>) -> (r: Vec<Branch>)
    requires
        forall|i: int| 0 <= i < branches.len() ==> (#[trigger] branches@[i]).commit_timestamp != Some(i64::MIN),
    ensures
        exists|order: Seq<int>| stably_sorted_by_key(offered_branches(branch_views(branches@)), branch_views(r@), order),
{
    let ghost bv = branch_views(branches@);
    let ghost f = offered_keep(bv);
    let mut kept: Vec<Branch> = Vec::new();
    let mut i: usize = 0;
    while i < branches.len()
        invariant
            i <= branches.len(),
            bv == branch_views(branches@),
            f == offered_keep(bv),
            branch_views(kept@) == bv.take(i as int).filter_map(f),
            forall|j: int| 0 <= j < kept.len() ==> (#[trigger] kept@[j]).commit_timestamp != Some(i64::MIN),
            forall|j: int| 0 <= j < branches.len() ==> (#[trigger] branches@[j]).commit_timestamp != Some(i64::MIN),
        decreases branches.len() - i,
    {
        proof {
            bv.lemma_filter_map_take_succ(f, i as int);
        }
        if !is_remote_upstream_exec(branches, &branches[i].ref_name) {
            let ghost old_kept = kept@;
            kept.push(branches[i].clone());
            proof {
                assert(branch_views(kept@) =~= bv.take(i + 1).filter_map(f));
                assert forall|j: int| 0 <= j < kept.len() implies (#[trigger] kept@[j]).commit_timestamp != Some(i64::MIN) by {
                    if j < old_kept.len() {
                        assert(kept@[j] == old_kept[j]);
                    } else {
                        assert(kept@[j]@ == branches@[i as int]@);
                    }
                }
            }
        }
        i = i + 1;
    }
    assert(bv.take(branches.len() as int) =~= bv);
    let r = sort_branches(&kept);
    proof {
        assert(branch_views(kept@) == offered_branches(bv));
        let order = choose|order: Seq<int>| stably_sorted_by_key(branch_views(kept@), branch_views(r@), order);
        assert(stably_sorted_by_key(offered_branches(bv), branch_views(r@), order));
    }
    r
}

/// The branches checked out in some worktree, with the reason why they cannot
/// be chosen.
pub fn occupied_entries_exec(worktrees: &Vec<GitWorktree>, project_paths: &Vec<String>) -> (r: Vec<(String, String)>)
    ensures
        pair_views(r@) == occupied_entries(worktree_views(worktrees@), string_views(project_paths@)),
{
    let ghost wv = worktree_views(worktrees@);
    let ghost pv = string_views(project_paths@);
    let ghost f = |w: GitWorktreeV| match w.branch_name {
        Some(name) => Some((name, occupied_reason(w.path, pv))),
        None => None::<(Seq<char>, Seq<char>)>,
    };
    let mut r: Vec<(String, String)> = Vec::new();
    let mut i: usize = 0;
    while i < worktrees.len()
        invariant
            i <= worktrees.len(),
            wv == worktree_views(worktrees@),
            pv == string_views(project_paths@),
            f == (|w: GitWorktreeV| match w.branch_name {
                Some(name) => Some((name, occupied_reason(w.path, pv))),
                None => None::<(Seq<char>, Seq<char>)>,
            }),
            pair_views(r@) == wv.take(i as int).filter_map(f),
        decreases worktrees.len() - i,
    {
        proof {
            wv.lemma_filter_map_take_succ(f, i as int);
        }
        let w = &worktrees[i];
        match &w.branch_name {
            Some(name) => {
                let reason = occupied_reason_exec(&w.path, project_paths);
                r.push((name.clone(), reason));
                assert(pair_views(r@) =~= wv.take(i + 1).filter_map(f));
            },
            None => {},
        }
        i = i + 1;
    }
    assert(wv.take(worktrees.len() as int) =~= wv);
    r
}

fn occupied_reason_exec(path: &String, project_paths: &Vec<String>) -> (r: String)
    ensures
        r@ == occupied_reason(path@, string_views(project_paths@)),
{
    let in_project = contains_same_path(project_paths, path);
    assert(string_views(project_paths@) =~= project_paths@.map_values(|s: String| s@));
    let mut r = if in_project {
        "This branch is already checked out in the current project worktree at ".to_owned()
    } else {
        "This branch is already checked out in a linked worktree at ".to_owned()
    };
    r.append(path.as_str());
    r.append(".");
    r
}

/// An entry of the branch picker.
#[derive(Debug, PartialEq, Eq)]
pub enum ThreadBranchEntry {
    /// Start on a new branch with a generated name.
    RandomBranch,
    /// Start from an existing branch; `positions` are where a query matched
    /// its name; a branch with a `disabled_reason` cannot be chosen.
    ExistingBranch { branch: Branch, positions: Vec<usize>, disabled_reason: Option<String> },
    /// Start on a new branch with this name.
    CreateNamed { name: String },
}

pub enum BranchEntryV {
    RandomBranch,
    ExistingBranch { branch: BranchV, positions: Seq<usize>, disabled_reason: Option<Seq<char>> },
    CreateNamed { name: Seq<char> },
}

impl View for ThreadBranchEntry {
    type V = BranchEntryV;

    open spec fn view(&self) -> BranchEntryV {
        match self {
            ThreadBranchEntry::RandomBranch => BranchEntryV::RandomBranch,
            ThreadBranchEntry::ExistingBranch { branch, positions, disabled_reason } => BranchEntryV::ExistingBranch {
                branch: branch@,
                positions: positions@,
                disabled_reason: opt_view(*disabled_reason),
            },
            ThreadBranchEntry::CreateNamed { name } => BranchEntryV::CreateNamed { name: name@ },
        }
    }
}

pub open spec fn entry_views(v: Seq<ThreadBranchEntry>) -> Seq<BranchEntryV> {
    v.map_values(|e: ThreadBranchEntry| e@)
}

/// The state of the branch picker.
pub struct ThreadBranchPickerDelegate {
    matches: Vec<ThreadBranchEntry>,
    all_branches: Option<Vec<Branch>>,
    occupied_branches: Option<Vec<(String, String)>>,
    selected_index: usize,
    selected_entry_name: Option<String>,
    prefer_create_entry: bool,
    preserved_worktree_name: Option<String>,
    project_worktree_paths: Vec<String>,
}

pub struct BranchPickerV {
    pub matches: Seq<BranchEntryV>,
    pub all_branches: Option<Seq<BranchV>>,
    pub occupied_branches: Option<Seq<(Seq<char>, Seq<char>)>>,
    pub selected_index: nat,
    pub selected_entry_name: Option<Seq<char>>,
    pub prefer_create_entry: bool,
    pub preserved_worktree_name: Option<Seq<char>>,
    pub project_worktree_paths: Seq<Seq<char>>,
}

impl View for ThreadBranchPickerDelegate {
    type V = BranchPickerV;

    closed spec fn view(&self) -> BranchPickerV {
        BranchPickerV {
            matches: entry_views(self.matches@),
            all_branches: match self.all_branches {
                Some(v) => Some(branch_views(v@)),
                None => None,
            },
            occupied_branches: match self.occupied_branches {
                Some(v) => Some(pair_views(v@)),
                None => None,
            },
            selected_index: self.selected_index as nat,
            selected_entry_name: opt_view(self.selected_entry_name),
            prefer_create_entry: self.prefer_create_entry,
            preserved_worktree_name: opt_view(self.preserved_worktree_name),
            project_worktree_paths: string_views(self.project_worktree_paths@),
        }
    }
}

pub open spec fn is_existing_named(e: BranchEntryV, name: Seq<char>) -> bool {
    match e {
        BranchEntryV::ExistingBranch { branch, .. } => branch.name == name,
        _ => false,
    }
}

pub open spec fn is_create_named(e: BranchEntryV, name: Seq<char>) -> bool {
    match e {
        BranchEntryV::CreateNamed { name: n } => n == name,
        _ => false,
    }
}

pub open spec fn create_named_pred(n: Seq<char>) -> spec_fn(BranchEntryV) -> bool {
    |e: BranchEntryV| is_create_named(e, n)
}

pub open spec fn existing_named_pred(n: Seq<char>) -> spec_fn(BranchEntryV) -> bool {
    |e: BranchEntryV| is_existing_named(e, n)
}

/// The first position at or after `k` of an entry that `p` holds of.
pub open spec fn first_entry_from(s: Seq<BranchEntryV>, p: spec_fn(BranchEntryV) -> bool, k: int) -> Option<int>
    decreases s.len() - k,
{
    if k < 0 || k >= s.len() {
        None
    } else if p(s[k]) {
        Some(k)
    } else {
        first_entry_from(s, p, k + 1)
    }
}

/// The entry to select among `matches`: the existing branch with the
/// selected name, or, where the picker prefers to create it, the entry that
/// creates it; else the first entry.
pub open spec fn synced_index(matches: Seq<BranchEntryV>, name: Option<Seq<char>>, prefer_create: bool) -> nat {
    match name {
        Some(n) => {
            let found = if prefer_create {
                first_entry_from(matches, create_named_pred(n), 0)
            } else {
                first_entry_from(matches, existing_named_pred(n), 0)
            };
            match found {
                Some(i) => i as nat,
                None => 0,
            }
        },
        None => 0,
    }
}

proof fn lemma_first_entry_from_bounds(s: Seq<BranchEntryV>, p: spec_fn(BranchEntryV) -> bool, k: int)
    ensures
        first_entry_from(s, p, k) matches Some(i) ==> k <= i < s.len() && p(s[i]),
    decreases s.len() - k,
{
    if 0 <= k < s.len() && !p(s[k]) {
        lemma_first_entry_from_bounds(s, p, k + 1);
    }
}

/// The entry that syncing selects is one of the entries, and, where it is
/// not the first, it is the entry named as the selection says: the one that
/// creates the name where the picker prefers that, else the existing branch.
pub proof fn lemma_synced_index_in_range(matches: Seq<BranchEntryV>, name: Option<Seq<char>>, prefer_create: bool)
    requires
        matches.len() > 0,
    ensures
        synced_index(matches, name, prefer_create) < matches.len(),
        synced_index(matches, name, prefer_create) != 0 ==> (name matches Some(n) && if prefer_create {
            is_create_named(matches[synced_index(matches, name, prefer_create) as int], n)
        } else {
            is_existing_named(matches[synced_index(matches, name, prefer_create) as int], n)
        }),
{
    if let Some(n) = name {
        lemma_first_entry_from_bounds(matches, create_named_pred(n), 0);
        lemma_first_entry_from_bounds(matches, existing_named_pred(n), 0);
    }
}

/// The picker before any branch is known: it offers a random branch only.
pub open spec fn branch_picker_start(target: StartThreadInV, paths: Seq<Seq<char>>) -> BranchPickerV {
    let (name, prefer, worktree) = initial_selection(target);
    BranchPickerV {
        matches: seq![BranchEntryV::RandomBranch],
        all_branches: None,
        occupied_branches: None,
        selected_index: 0,
        selected_entry_name: name,
        prefer_create_entry: prefer,
        preserved_worktree_name: worktree,
        project_worktree_paths: paths,
    }
}

pub open spec fn existing_entry(b: BranchV, occupied: Seq<(Seq<char>, Seq<char>)>, positions: Seq<usize>) -> BranchEntryV {
    BranchEntryV::ExistingBranch { branch: b, positions, disabled_reason: lookup_last(occupied, b.name) }
}

pub open spec fn listing_entry_fn(occupied: Seq<(Seq<char>, Seq<char>)>) -> spec_fn(BranchV) -> BranchEntryV {
    |b: BranchV| existing_entry(b, occupied, Seq::empty())
}

pub open spec fn query_entry_fn(branches: Seq<BranchV>, occupied: Seq<(Seq<char>, Seq<char>)>) -> spec_fn((int, Seq<usize>)) -> BranchEntryV {
    |m: (int, Seq<usize>)| existing_entry(branches[m.0], occupied, m.1)
}

/// The entries without a query: a random branch, every branch, and, where
/// the picker prefers to create the selected name and no branch has it, the
/// entry that creates it.
pub open spec fn listing_entries(
    all: Seq<BranchV>,
    occupied: Seq<(Seq<char>, Seq<char>)>,
    name: Option<Seq<char>>,
    prefer_create: bool,
) -> Seq<BranchEntryV> {
    let base = seq![BranchEntryV::RandomBranch] + all.map_values(listing_entry_fn(occupied));
    match name {
        Some(n) => if prefer_create && !(exists|i: int| 0 <= i < all.len() && (#[trigger] all[i]).name == n) {
            base.push(BranchEntryV::CreateNamed { name: n })
        } else {
            base
        },
        None => base,
    }
}

/// The entries for a query, given the fuzzy matches among `branches`' names:
/// a random branch, the matching branches in the order of the matches, and,
/// where nothing matched, the entry that creates a branch named after the
/// query.
pub open spec fn query_entries(
    query: Seq<char>,
    branches: Seq<BranchV>,
    occupied: Seq<(Seq<char>, Seq<char>)>,
    found: Seq<(int, Seq<usize>)>,
) -> Seq<BranchEntryV> {
    let base = seq![BranchEntryV::RandomBranch] + found.map_values(query_entry_fn(branches, occupied));
    if found.len() == 0 {
        base.push(BranchEntryV::CreateNamed { name: dashed(query) })
    } else {
        base
    }
}

pub open spec fn fuzzy_views(v: Seq<FuzzyMatch>) -> Seq<(int, Seq<usize>)> {
    v.map_values(|m: FuzzyMatch| (m.candidate_id as int, m.positions@))
}

/// The branch name to create from a remote branch: its reference without
/// `refs/remotes/` and the remote's name; the short name where the reference
/// is not of that form.
pub open spec fn remote_branch_name(ref_name: Seq<char>, name: Seq<char>) -> Seq<char> {
    let prefix = "refs/remotes/"@;
    if ref_name.len() >= prefix.len() && ref_name.take(prefix.len() as int) == prefix {
        let rest = ref_name.skip(prefix.len() as int);
        match crate::text::find_from(rest, seq!['/'], 0) {
            Some(i) => rest.skip(i + 1),
            None => name,
        }
    } else {
        name
    }
}

/// The local name of a remote branch drops only the remote's name: for the
/// reference `refs/remotes/{remote}/{branch}`, where the remote's name holds
/// no `/`, it is `branch`, slashes and all.
pub proof fn lemma_remote_branch_name_drops_remote(remote: Seq<char>, branch: Seq<char>, name: Seq<char>)
    requires
        !remote.contains('/'),
    ensures
        remote_branch_name("refs/remotes/"@ + remote + "/"@ + branch, name) == branch,
{
    reveal_strlit("refs/remotes/");
    reveal_strlit("/");
    let prefix = "refs/remotes/"@;
    let r = prefix + remote + "/"@ + branch;
    assert(r.take(prefix.len() as int) =~= prefix);
    let rest = r.skip(prefix.len() as int);
    assert(rest =~= remote + "/"@ + branch);
    let l = remote.len() as int;
    assert(rest.subrange(l, l + 1) =~= seq!['/']);
    assert forall|j: int| 0 <= j < remote.len() implies #[trigger] rest[j] != seq!['/'][0] by {
        assert(rest[j] == remote[j]);
    }
    crate::text::lemma_find_first_at(rest, seq!['/'], 0, remote.len() as int);
    assert(rest.skip(l + 1) =~= branch);
}

/// Where the chosen entry starts the thread; `None` when nothing is chosen or
/// the chosen branch cannot be used.
pub open spec fn branch_confirmation(v: BranchPickerV) -> Option<StartThreadInV> {
    if v.selected_index >= v.matches.len() {
        None
    } else {
        match v.matches[v.selected_index as int] {
            BranchEntryV::RandomBranch => Some(StartThreadInV::NewWorktree {
                worktree_name: v.preserved_worktree_name,
                branch_name: None,
                start_point: None,
            }),
            BranchEntryV::ExistingBranch { branch, disabled_reason, .. } => match disabled_reason {
                Some(_) => None,
                None => if branch.is_remote {
                    Some(StartThreadInV::NewWorktree {
                        worktree_name: v.preserved_worktree_name,
                        branch_name: Some(remote_branch_name(branch.ref_name, branch.name)),
                        start_point: Some(branch.name),
                    })
                } else {
                    Some(StartThreadInV::NewWorktree {
                        worktree_name: v.preserved_worktree_name,
                        branch_name: None,
                        start_point: Some(branch.name),
                    })
                },
            },
            BranchEntryV::CreateNamed { name } => Some(StartThreadInV::NewWorktree {
                worktree_name: v.preserved_worktree_name,
                branch_name: Some(name),
                start_point: None,
            }),
        }
    }
}

/// A query that waits for its fuzzy matches: the query and the branches and
/// occupied branches as they were when it came.
#[derive(Debug)]
pub struct BranchQuery {
    query: String,
    branches: Vec<Branch>,
    occupied: Vec<(String, String)>,
}

pub struct BranchQueryV {
    pub query: Seq<char>,
    pub branches: Seq<BranchV>,
    pub occupied: Seq<(Seq<char>, Seq<char>)>,
}

impl View for BranchQuery {
    type V = BranchQueryV;

    closed spec fn view(&self) -> BranchQueryV {
        BranchQueryV { query: self.query@, branches: branch_views(self.branches@), occupied: pair_views(self.occupied@) }
    }
}

impl BranchQuery {
    pub fn query(&self) -> (r: &str)
        ensures
            r@ == self@.query,
    {
        self.query.as_str()
    }

    /// The strings to match the query against: the branch names, the
    /// candidate id of each being its position.
    pub fn candidates(&self) -> (r: Vec<String>)
        ensures
            string_views(r@) == self@.branches.map_values(|b: BranchV| b.name),
    {
        let mut r: Vec<String> = Vec::new();
        let mut i: usize = 0;
        while i < self.branches.len()
            invariant
                i <= self.branches.len(),
                string_views(r@) == branch_views(self.branches@).take(i as int).map_values(|b: BranchV| b.name),
            decreases self.branches.len() - i,
        {
            let ghost old_r = r@;
            let name = self.branches[i].name.clone();
            r.push(name);
            assert(string_views(r@) =~= string_views(old_r).push(name@));
            assert(branch_views(self.branches@).take(i + 1).map_values(|b: BranchV| b.name) =~= branch_views(self.branches@).take(i as int).map_values(|b: BranchV| b.name).push(self.branches@[i as int]@.name));
            i = i + 1;
        }
        assert(branch_views(self.branches@).take(self.branches.len() as int) =~= branch_views(self.branches@));
        r
    }
}

fn clone_branches(v: &Vec<Branch>) -> (r: Vec<Branch>)
    ensures
        branch_views(r@) == branch_views(v@),
{
    let mut r: Vec<Branch> = Vec::new();
    let mut i: usize = 0;
    while i < v.len()
        invariant
            i <= v.len(),
            branch_views(r@) == branch_views(v@).take(i as int),
        decreases v.len() - i,
    {
        let ghost old_r = r@;
        let b = v[i].clone();
        r.push(b);
        assert(branch_views(r@) =~= branch_views(old_r).push(b@));
        assert(branch_views(r@) =~= branch_views(v@).take(i + 1));
        i = i + 1;
    }
    assert(branch_views(v@).take(v.len() as int) =~= branch_views(v@));
    r
}

fn clone_pairs(v: &Vec<(String, String)>) -> (r: Vec<(String, String)>)
    ensures
        pair_views(r@) == pair_views(v@),
{
    let mut r: Vec<(String, String)> = Vec::new();
    let mut i: usize = 0;
    while i < v.len()
        invariant
            i <= v.len(),
            pair_views(r@) == pair_views(v@).take(i as int),
        decreases v.len() - i,
    {
        let ghost old_r = r@;
        let e = (v[i].0.clone(), v[i].1.clone());
        r.push(e);
        assert(pair_views(r@) =~= pair_views(old_r).push((e.0@, e.1@)));
        assert(pair_views(r@) =~= pair_views(v@).take(i + 1));
        i = i + 1;
    }
    assert(pair_views(v@).take(v.len() as int) =~= pair_views(v@));
    r
}

/// What an entry of the branch picker shows in place `ix`.
pub open spec fn branch_entry_view(e: BranchEntryV, ix: nat) -> EntryViewV {
    match e {
        BranchEntryV::RandomBranch => EntryViewV {
            element_id: "random-branch"@,
            label: "Random Branch"@,
            highlight_positions: Seq::empty(),
            disabled: false,
            icon: EntryIcon::GitBranch,
            icon_color: EntryColor::Muted,
            label_color: EntryColor::Default,
            tooltip: None,
        },
        BranchEntryV::ExistingBranch { branch, positions, disabled_reason } => EntryViewV {
            element_id: "branch-"@ + crate::text::decimal(ix),
            label: branch.name,
            highlight_positions: positions,
            disabled: disabled_reason is Some,
            icon: EntryIcon::GitBranch,
            icon_color: if disabled_reason is Some { EntryColor::Disabled } else { EntryColor::Muted },
            label_color: if disabled_reason is Some { EntryColor::Disabled } else { EntryColor::Default },
            tooltip: Some(
                match disabled_reason {
                    Some(reason) => reason,
                    None => if branch.is_remote {
                        "Create a new local branch from this remote branch"@
                    } else {
                        branch.name
                    },
                },
            ),
        },
        BranchEntryV::CreateNamed { name } => EntryViewV {
            element_id: "create-named-branch"@,
            label: "Create Branch: \""@ + name + "\"\u{2026}"@,
            highlight_positions: Seq::empty(),
            disabled: false,
            icon: EntryIcon::Plus,
            icon_color: EntryColor::Accent,
            label_color: EntryColor::Default,
            tooltip: None,
        },
    }
}

fn is_existing_named_exec(e: &ThreadBranchEntry, n: &String) -> (r: bool)
    ensures
        r == is_existing_named(e@, n@),
{
    match e {
        ThreadBranchEntry::ExistingBranch { branch, .. } => branch.name == *n,
        _ => false,
    }
}

fn is_create_named_exec(e: &ThreadBranchEntry, n: &String) -> (r: bool)
    ensures
        r == is_create_named(e@, n@),
{
    match e {
        ThreadBranchEntry::CreateNamed { name } => *name == *n,
        _ => false,
    }
}

/// The place of the first entry that has the name `n`: an entry that creates
/// it when `create` holds, else an existing branch.
fn first_named(matches: &Vec<ThreadBranchEntry>, n: &String, create: bool) -> (r: Option<usize>)
    ensures
        ({
            let p = if create { create_named_pred(n@) } else { existing_named_pred(n@) };
            match r {
                Some(i) => first_entry_from(entry_views(matches@), p, 0) == Some(i as int),
                None => first_entry_from(entry_views(matches@), p, 0) is None,
            }
        }),
{
    let ghost ev = entry_views(matches@);
    let ghost p = if create { create_named_pred(n@) } else { existing_named_pred(n@) };
    let mut i: usize = 0;
    while i < matches.len()
        invariant
            i <= matches.len(),
            ev == entry_views(matches@),
            p == (if create { create_named_pred(n@) } else { existing_named_pred(n@) }),
            first_entry_from(ev, p, 0) == first_entry_from(ev, p, i as int),
        decreases matches.len() - i,
    {
        let hit = if create {
            is_create_named_exec(&matches[i], n)
        } else {
            is_existing_named_exec(&matches[i], n)
        };
        assert(ev[i as int] == matches@[i as int]@);
        if hit {
            return Some(i);
        }
        i = i + 1;
    }
    None
}

fn remote_branch_name_exec(ref_name: &String, name: &String) -> (r: String)
    ensures
        r@ == remote_branch_name(ref_name@, name@),
{
    let cs = chars_of(ref_name.as_str());
    let prefix = chars_of("refs/remotes/");
    proof {
        reveal_strlit("refs/remotes/");
    }
    if crate::text::occurs_at_exec(&cs, &prefix, 0) {
        assert(cs@.subrange(0, prefix@.len() as int) =~= cs@.take(prefix@.len() as int));
        let rest = crate::compliance::git::slice_chars(&cs, prefix.len(), cs.len());
        assert(rest@ =~= cs@.skip(prefix@.len() as int));
        let slash = chars_of("/");
        proof {
            reveal_strlit("/");
            assert(slash@ =~= seq!['/']);
        }
        match crate::text::find_from_exec(&rest, &slash, 0) {
            Some(i) => {
                proof {
                    crate::text::lemma_find_from_bounds(rest@, slash@, 0);
                }
                let r = crate::text::string_of_range(&rest, i + 1, rest.len());
                assert(rest@.subrange(i + 1, rest@.len() as int) =~= rest@.skip(i + 1));
                r
            },
            None => name.clone(),
        }
    } else {
        proof {
            if cs@.len() >= 13 && cs@.take(13) == "refs/remotes/"@ {
                assert(cs@.subrange(0, 13) =~= cs@.take(13));
            }
        }
        name.clone()
    }
}

impl ThreadBranchPickerDelegate {
    /// The picker for a thread that would start at `current_target`, in a
    /// project with worktrees at `project_worktree_paths`.
    pub fn new(current_target: &StartThreadIn, project_worktree_paths: Vec<String>) -> (r: Self)
        ensures
            r@ == branch_picker_start(current_target@, string_views(project_worktree_paths@)),
    {
        let (selected_entry_name, prefer_create_entry, preserved_worktree_name) = initial_selection_exec(current_target);
        let r = ThreadBranchPickerDelegate {
            matches: vec![ThreadBranchEntry::RandomBranch],
            all_branches: None,
            occupied_branches: None,
            selected_index: 0,
            selected_entry_name,
            prefer_create_entry,
            preserved_worktree_name,
            project_worktree_paths,
        };
        assert(r@.matches =~= seq![BranchEntryV::RandomBranch]);
        r
    }

    pub fn match_count(&self) -> (r: usize)
        ensures
            r == self@.matches.len(),
    {
        self.matches.len()
    }

    pub fn selected_index(&self) -> (r: usize)
        ensures
            r == self@.selected_index,
    {
        self.selected_index
    }

    pub fn set_selected_index(&mut self, ix: usize)
        ensures
            final(self)@ == (BranchPickerV { selected_index: ix as nat, ..old(self)@ }),
    {
        self.selected_index = ix;
    }

    /// The entries.
    pub fn matches(&self) -> (r: &Vec<ThreadBranchEntry>)
        ensures
            entry_views(r@) == self@.matches,
    {
        &self.matches
    }

    /// Takes in the repository's branches and worktrees: the branches to
    /// offer, in order, and the branches that worktrees have checked out.
    pub fn set_branches(&mut self, branches: Vec<Branch>, worktrees: Vec<GitWorktree>)
        requires
            forall|i: int| 0 <= i < branches.len() ==> (#[trigger] branches@[i]).commit_timestamp != Some(i64::MIN),
        ensures
            final(self)@.all_branches is Some,
            exists|order: Seq<int>|
                #[trigger] stably_sorted_by_key(offered_branches(branch_views(branches@)), final(self)@.all_branches->0, order),
            final(self)@.occupied_branches == Some(
                occupied_entries(worktree_views(worktrees@), old(self)@.project_worktree_paths),
            ),
            final(self)@.matches == old(self)@.matches,
            final(self)@.selected_index == old(self)@.selected_index,
            final(self)@.selected_entry_name == old(self)@.selected_entry_name,
            final(self)@.prefer_create_entry == old(self)@.prefer_create_entry,
            final(self)@.preserved_worktree_name == old(self)@.preserved_worktree_name,
            final(self)@.project_worktree_paths == old(self)@.project_worktree_paths,
    {
        let occupied = occupied_entries_exec(&worktrees, &self.project_worktree_paths);
        let all = offered_branches_exec(&branches);
        let ghost av = branch_views(all@);
        self.all_branches = Some(all);
        self.occupied_branches = Some(occupied);
        proof {
            let order = choose|order: Seq<int>| stably_sorted_by_key(offered_branches(branch_views(branches@)), av, order);
            assert(self@.all_branches == Some(av));
            assert(stably_sorted_by_key(offered_branches(branch_views(branches@)), av, order));
            assert(self@.all_branches->0 == av);
            assert(stably_sorted_by_key(offered_branches(branch_views(branches@)), self@.all_branches->0, order));
        }
    }

    fn sync_selected_index(&mut self)
        ensures
            final(self)@ == (BranchPickerV {
                selected_index: synced_index(old(self)@.matches, old(self)@.selected_entry_name, old(self)@.prefer_create_entry),
                ..old(self)@
            }),
    {
        let found = match &self.selected_entry_name {
            Some(name) => first_named(&self.matches, name, self.prefer_create_entry),
            None => None,
        };
        self.selected_index = match found {
            Some(i) => i,
            None => 0,
        };
    }

    /// Updates the entries for `query`. Without a query, or before the
    /// branches are known, this is done at once and `None` comes back;
    /// else the query comes back, to be matched against its candidates and
    /// finished by [`ThreadBranchPickerDelegate::apply_fuzzy_matches`].
    pub fn update_matches(&mut self, query: &str) -> (r: Option<BranchQuery>)
        ensures
            match old(self)@.all_branches {
                None => r is None && final(self)@ == (BranchPickerV {
                    matches: seq![BranchEntryV::RandomBranch],
                    selected_index: 0,
                    ..old(self)@
                }),
                Some(all) => {
                    let occupied = match old(self)@.occupied_branches {
                        Some(o) => o,
                        None => Seq::empty(),
                    };
                    if query@.len() == 0 {
                        let m = listing_entries(all, occupied, old(self)@.selected_entry_name, old(self)@.prefer_create_entry);
                        r is None && final(self)@ == (BranchPickerV {
                            matches: m,
                            selected_index: synced_index(m, old(self)@.selected_entry_name, old(self)@.prefer_create_entry),
                            ..old(self)@
                        })
                    } else {
                        r matches Some(q) && q@ == (BranchQueryV { query: query@, branches: all, occupied })
                            && final(self)@ == old(self)@
                    }
                },
            },
    {
        let all = match &self.all_branches {
            None => {
                self.matches = vec![ThreadBranchEntry::RandomBranch];
                self.selected_index = 0;
                assert(self@.matches =~= seq![BranchEntryV::RandomBranch]);
                return None;
            },
            Some(all) => clone_branches(all),
        };
        let occupied = match &self.occupied_branches {
            Some(o) => clone_pairs(o),
            None => Vec::new(),
        };
        proof {
            if self.occupied_branches is None {
                assert(pair_views(occupied@) =~= Seq::<(Seq<char>, Seq<char>)>::empty());
            }
        }
        if query.is_empty() {
            let ghost occ = pair_views(occupied@);
            let ghost allv = branch_views(all@);
            let mut matches: Vec<ThreadBranchEntry> = vec![ThreadBranchEntry::RandomBranch];
            let mut has_existing = false;
            let mut i: usize = 0;
            assert(entry_views(matches@) =~= seq![BranchEntryV::RandomBranch] + allv.take(0).map_values(listing_entry_fn(occ)));
            while i < all.len()
                invariant
                    i <= all.len(),
                    occ == pair_views(occupied@),
                    allv == branch_views(all@),
                    entry_views(matches@) == seq![BranchEntryV::RandomBranch] + allv.take(i as int).map_values(listing_entry_fn(occ)),
                    self.selected_entry_name matches Some(n) ==> (has_existing == exists|j: int| 0 <= j < i && (#[trigger] allv[j]).name == n@),
                decreases all.len() - i,
            {
                let b = all[i].clone();
                match &self.selected_entry_name {
                    Some(n) => {
                        if b.name == *n {
                            has_existing = true;
                        }
                    },
                    None => {},
                }
                let reason = lookup_last_exec(&occupied, b.name.as_str());
                let ghost old_m = matches@;
                let e = ThreadBranchEntry::ExistingBranch { branch: b, positions: Vec::new(), disabled_reason: reason };
                matches.push(e);
                proof {
                    assert(e@ == listing_entry_fn(occ)(allv[i as int]));
                    assert(entry_views(matches@) =~= entry_views(old_m).push(e@));
                    assert(allv.take(i + 1).map_values(listing_entry_fn(occ)) =~= allv.take(i as int).map_values(listing_entry_fn(occ)).push(e@));
                    assert(entry_views(matches@) =~= seq![BranchEntryV::RandomBranch] + allv.take(i + 1).map_values(listing_entry_fn(occ)));
                }
                i = i + 1;
            }
            proof {
                assert(allv.take(all.len() as int) =~= allv);
            }
            match &self.selected_entry_name {
                Some(n) => {
                    if self.prefer_create_entry && !has_existing {
                        let ghost old_m = matches@;
                        let e = ThreadBranchEntry::CreateNamed { name: n.clone() };
                        matches.push(e);
                        assert(entry_views(matches@) =~= entry_views(old_m).push(e@));
                    }
                },
                None => {},
            }
            self.matches = matches;
            self.sync_selected_index();
            return None;
        }
        Some(BranchQuery { query: query.to_owned(), branches: all, occupied })
    }

    /// Finishes a query with its fuzzy matches among the query's candidates.
    pub fn apply_fuzzy_matches(&mut self, query: BranchQuery, found: Vec<FuzzyMatch>)
        requires
            forall|i: int| 0 <= i < found.len() ==> (#[trigger] found@[i]).candidate_id < query@.branches.len(),
        ensures
            ({
                let m = query_entries(query@.query, query@.branches, query@.occupied, fuzzy_views(found@));
                final(self)@ == (BranchPickerV {
                    matches: m,
                    selected_index: synced_index(m, old(self)@.selected_entry_name, old(self)@.prefer_create_entry),
                    ..old(self)@
                })
            }),
    {
        let ghost qv = query@;
        let ghost fv = fuzzy_views(found@);
        let mut matches: Vec<ThreadBranchEntry> = vec![ThreadBranchEntry::RandomBranch];
        let mut i: usize = 0;
        assert(entry_views(matches@) =~= seq![BranchEntryV::RandomBranch] + fv.take(0).map_values(query_entry_fn(qv.branches, qv.occupied)));
        while i < found.len()
            invariant
                i <= found.len(),
                qv == query@,
                fv == fuzzy_views(found@),
                forall|k: int| 0 <= k < found.len() ==> (#[trigger] found@[k]).candidate_id < query@.branches.len(),
                entry_views(matches@) == seq![BranchEntryV::RandomBranch] + fv.take(i as int).map_values(query_entry_fn(qv.branches, qv.occupied)),
            decreases found.len() - i,
        {
            let id = found[i].candidate_id;
            let b = query.branches[id].clone();
            let reason = lookup_last_exec(&query.occupied, b.name.as_str());
            let positions = clone_positions(&found[i].positions);
            let ghost old_m = matches@;
            let e = ThreadBranchEntry::ExistingBranch { branch: b, positions, disabled_reason: reason };
            matches.push(e);
            proof {
                assert(branch_views(query.branches@)[id as int] == query.branches@[id as int]@);
                assert(e@ == query_entry_fn(qv.branches, qv.occupied)(fv[i as int]));
                assert(entry_views(matches@) =~= entry_views(old_m).push(e@));
                assert(fv.take(i + 1).map_values(query_entry_fn(qv.branches, qv.occupied)) =~= fv.take(i as int).map_values(query_entry_fn(qv.branches, qv.occupied)).push(e@));
            }
            i = i + 1;
        }
        proof {
            assert(fv.take(found.len() as int) =~= fv);
        }
        if found.len() == 0 {
            let name = dashed_exec(query.query.as_str());
            let ghost old_m = matches@;
            let e = ThreadBranchEntry::CreateNamed { name };
            matches.push(e);
            assert(entry_views(matches@) =~= entry_views(old_m).push(e@));
        }
        self.matches = matches;
        self.sync_selected_index();
    }

    /// Where the chosen entry starts the thread; `None` when nothing is chosen
    /// or the chosen branch cannot be used, and the picker stays open.
    pub fn confirm(&self) -> (r: Option<StartThreadIn>)
        ensures
            match r {
                Some(t) => branch_confirmation(self@) == Some(t@),
                None => branch_confirmation(self@) is None,
            },
    {
        if self.selected_index >= self.matches.len() {
            return None;
        }
        let entry = &self.matches[self.selected_index];
        assert(self@.matches[self.selected_index as int] == entry@);
        match entry {
            ThreadBranchEntry::RandomBranch => Some(StartThreadIn::NewWorktree {
                worktree_name: clone_opt(&self.preserved_worktree_name),
                branch_name: None,
                start_point: None,
            }),
            ThreadBranchEntry::ExistingBranch { branch, disabled_reason, .. } => match disabled_reason {
                Some(_) => None,
                None => if branch.is_remote {
                    Some(StartThreadIn::NewWorktree {
                        worktree_name: clone_opt(&self.preserved_worktree_name),
                        branch_name: Some(remote_branch_name_exec(&branch.ref_name, &branch.name)),
                        start_point: Some(branch.name.clone()),
                    })
                } else {
                    Some(StartThreadIn::NewWorktree {
                        worktree_name: clone_opt(&self.preserved_worktree_name),
                        branch_name: None,
                        start_point: Some(branch.name.clone()),
                    })
                },
            },
            ThreadBranchEntry::CreateNamed { name } => Some(StartThreadIn::NewWorktree {
                worktree_name: clone_opt(&self.preserved_worktree_name),
                branch_name: Some(name.clone()),
                start_point: None,
            }),
        }
    }

    /// A separator follows the random-branch entry when there are others.
    pub fn separators_after_indices(&self) -> (r: Vec<usize>)
        ensures
            r@ == (if self@.matches.len() > 1 { seq![0usize] } else { Seq::<usize>::empty() }),
    {
        if self.matches.len() > 1 {
            let r = vec![0usize];
            assert(r@ =~= seq![0usize]);
            r
        } else {
            let r: Vec<usize> = Vec::new();
            assert(r@ =~= Seq::<usize>::empty());
            r
        }
    }

    /// What the entry in place `ix` shows; `None` when there is none.
    pub fn render_match(&self, ix: usize) -> (r: Option<EntryView>)
        ensures
            match r {
                Some(v) => ix < self@.matches.len() && v@ == branch_entry_view(self@.matches[ix as int], ix as nat),
                None => ix >= self@.matches.len(),
            },
    {
        if ix >= self.matches.len() {
            return None;
        }
        let entry = &self.matches[ix];
        assert(self@.matches[ix as int] == entry@);
        let v = match entry {
            ThreadBranchEntry::RandomBranch => EntryView {
                element_id: "random-branch".to_owned(),
                label: "Random Branch".to_owned(),
                highlight_positions: Vec::new(),
                disabled: false,
                icon: EntryIcon::GitBranch,
                icon_color: EntryColor::Muted,
                label_color: EntryColor::Default,
                tooltip: None,
            },
            ThreadBranchEntry::ExistingBranch { branch, positions, disabled_reason } => {
                let disabled = disabled_reason.is_some();
                let mut id = "branch-".to_owned();
                crate::text::push_decimal(&mut id, ix as u64);
                let tooltip = match disabled_reason {
                    Some(reason) => reason.clone(),
                    None => if branch.is_remote {
                        "Create a new local branch from this remote branch".to_owned()
                    } else {
                        branch.name.clone()
                    },
                };
                EntryView {
                    element_id: id,
                    label: branch.name.clone(),
                    highlight_positions: clone_positions(positions),
                    disabled,
                    icon: EntryIcon::GitBranch,
                    icon_color: if disabled { EntryColor::Disabled } else { EntryColor::Muted },
                    label_color: if disabled { EntryColor::Disabled } else { EntryColor::Default },
                    tooltip: Some(tooltip),
                }
            },
            ThreadBranchEntry::CreateNamed { name } => {
                let mut label = "Create Branch: \"".to_owned();
                label.append(name.as_str());
                label.append("\"\u{2026}");
                EntryView {
                    element_id: "create-named-branch".to_owned(),
                    label,
                    highlight_positions: Vec::new(),
                    disabled: false,
                    icon: EntryIcon::Plus,
                    icon_color: EntryColor::Accent,
                    label_color: EntryColor::Default,
                    tooltip: None,
                }
            },
        };
        assert(v@.highlight_positions =~= branch_entry_view(entry@, ix as nat).highlight_positions);
        Some(v)
    }
}

} // verus!

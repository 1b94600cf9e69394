//! The pickers that choose where a new agent thread starts: on which git
//! branch, and in which worktree.
pub mod branch;
pub mod worktree;

use vstd::prelude::*;

verus! {

/// Where a new thread starts.
#[derive(Debug, PartialEq, Eq)]
pub enum StartThreadIn {
    /// In the project as it is.
    LocalProject,
    /// In a new git worktree, optionally named, on an optional new branch,
    /// from an optional start point.
    NewWorktree {
        worktree_name: Option<String>,
        branch_name: Option<String>,
        start_point: Option<String>,
    },
    /// In an existing linked worktree.
    LinkedWorktree { path: String, display_name: String },
}

pub open spec fn opt_view(o: Option<String>) -> Option<Seq<char>> {
    match o {
        Some(s) => Some(s@),
        None => None,
    }
}

pub enum StartThreadInV {
    LocalProject,
    NewWorktree {
        worktree_name: Option<Seq<char>>,
        branch_name: Option<Seq<char>>,
        start_point: Option<Seq<char>>,
    },
    LinkedWorktree { path: Seq<char>, display_name: Seq<char> },
}

impl View for StartThreadIn {
    type V = StartThreadInV;

    open spec fn view(&self) -> StartThreadInV {
        match self {
            StartThreadIn::LocalProject => StartThreadInV::LocalProject,
            StartThreadIn::NewWorktree { worktree_name, branch_name, start_point } => StartThreadInV::NewWorktree {
                worktree_name: opt_view(*worktree_name),
                branch_name: opt_view(*branch_name),
                start_point: opt_view(*start_point),
            },
            StartThreadIn::LinkedWorktree { path, display_name } => StartThreadInV::LinkedWorktree {
                path: path@,
                display_name: display_name@,
            },
        }
    }
}

pub fn clone_opt(o: &Option<String>) -> (r: Option<String>)
    ensures
        opt_view(r) == opt_view(*o),
{
    match o {
        Some(s) => Some(s.clone()),
        None => None,
    }
}

/// A query with its spaces turned into dashes, as a name for a new branch or
/// worktree.
pub open spec fn dashed(q: Seq<char>) -> Seq<char> {
    q.map_values(|c: char| if c == ' ' { '-' } else { c })
}

pub fn dashed_exec(q: &str) -> (r: String)
    ensures
        r@ == dashed(q@),
{
    let cs = crate::text::chars_of(q);
    let mut r = String::new();
    let mut i: usize = 0;
    while i < cs.len()
        invariant
            i <= cs.len(),
            r@ == dashed(cs@.take(i as int)),
        decreases cs.len() - i,
    {
        let c = if cs[i] == ' ' {
            '-'
        } else {
            cs[i]
        };
        crate::text::push_char(&mut r, c);
        assert(dashed(cs@.take(i + 1)) =~= dashed(cs@.take(i as int)).push(c));
        i = i + 1;
    }
    assert(cs@.take(cs.len() as int) =~= cs@);
    r
}

/// A match of a fuzzy search: which candidate, and at which positions of it
/// the query's characters were found.
#[derive(Debug, PartialEq, Eq)]
pub struct FuzzyMatch {
    pub candidate_id: usize,
    pub positions: Vec<usize>,
}

/// The icon that a picker entry shows.
#[derive(Clone, Copy, Debug, PartialEq, Eq, Structural)]
pub enum EntryIcon {
    GitBranch,
    Plus,
    Folder,
    GitWorktree,
}

/// A color of the picker's palette.
#[derive(Clone, Copy, Debug, PartialEq, Eq, Structural)]
pub enum EntryColor {
    Default,
    Muted,
    Disabled,
    Accent,
}

/// What a picker entry shows.
#[derive(Debug, PartialEq, Eq)]
pub struct EntryView {
    pub element_id: String,
    pub label: String,
    pub highlight_positions: Vec<usize>,
    pub disabled: bool,
    pub icon: EntryIcon,
    pub icon_color: EntryColor,
    pub label_color: EntryColor,
    pub tooltip: Option<String>,
}

pub struct EntryViewV {
    pub element_id: Seq<char>,
    pub label: Seq<char>,
    pub highlight_positions: Seq<usize>,
    pub disabled: bool,
    pub icon: EntryIcon,
    pub icon_color: EntryColor,
    pub label_color: EntryColor,
    pub tooltip: Option<Seq<char>>,
}

impl View for EntryView {
    type V = EntryViewV;

    open spec fn view(&self) -> EntryViewV {
        EntryViewV {
            element_id: self.element_id@,
            label: self.label@,
            highlight_positions: self.highlight_positions@,
            disabled: self.disabled,
            icon: self.icon,
            icon_color: self.icon_color,
            label_color: self.label_color,
            tooltip: opt_view(self.tooltip),
        }
    }
}

pub fn clone_positions(v: &Vec<usize>) -> (r: Vec<usize>)
    ensures
        r@ == v@,
{
    let mut r: Vec<usize> = Vec::new();
    let mut i: usize = 0;
    while i < v.len()
        invariant
            i <= v.len(),
            r@ == v@.take(i as int),
        decreases v.len() - i,
    {
        r.push(v[i]);
        assert(r@ =~= v@.take(i + 1));
        i = i + 1;
    }
    assert(v@.take(v.len() as int) =~= v@);
    r
}

/// The names that a path's components list once an empty component and a
/// `.` component are dropped: the text between separators, gathered so far
/// and in the current component.
pub open spec fn path_scan(s: Seq<char>) -> (Seq<Seq<char>>, Seq<char>)
    decreases s.len(),
{
    if s.len() == 0 {
        (Seq::empty(), Seq::empty())
    } else {
        let (done, cur) = path_scan(s.drop_last());
        if s.last() == '/' {
            (path_flush(done, cur), Seq::empty())
        } else {
            (done, cur.push(s.last()))
        }
    }
}

/// `done` with the component `cur` added, unless it is empty or `.`.
pub open spec fn path_flush(done: Seq<Seq<char>>, cur: Seq<char>) -> Seq<Seq<char>> {
    if cur.len() > 0 && cur != seq!['.'] {
        done.push(cur)
    } else {
        done
    }
}

/// The names of a path's components, in order: what lies between the
/// separators, without empty components and without `.`.
pub open spec fn path_names(s: Seq<char>) -> Seq<Seq<char>> {
    path_flush(path_scan(s).0, path_scan(s).1)
}

/// Whether a path starts at the root.
pub open spec fn path_is_absolute(s: Seq<char>) -> bool {
    s.len() > 0 && s[0] == '/'
}

/// Whether a relative path starts with a `.` component, which is the one `.`
/// that a path's components keep.
pub open spec fn path_starts_here(s: Seq<char>) -> bool {
    !path_is_absolute(s) && s.len() > 0 && s[0] == '.' && (s.len() == 1 || s[1] == '/')
}

/// Whether two paths are the same path: they have the same components (a
/// root, a leading `.`, and the names between separators), so that `/a/b/`,
/// `/a//b` and `/a/./b` are all `/a/b`.
pub open spec fn same_path(a: Seq<char>, b: Seq<char>) -> bool {
    &&& path_is_absolute(a) == path_is_absolute(b)
    &&& path_starts_here(a) == path_starts_here(b)
    &&& path_names(a) == path_names(b)
}

/// Whether some path of `paths` is the same path as `p`.
pub open spec fn has_same_path(paths: Seq<Seq<char>>, p: Seq<char>) -> bool {
    exists|j: int| 0 <= j < paths.len() && same_path(#[trigger] paths[j], p)
}

pub open spec fn char_vec_views(v: Seq<Vec<char>>) -> Seq<Seq<char>> {
    v.map_values(|c: Vec<char>| c@)
}

fn flush_exec(done: &mut Vec<Vec<char>>, cur: Vec<char>)
    ensures
        char_vec_views(final(done)@) == path_flush(char_vec_views(old(done)@), cur@),
{
    let keep = cur.len() > 0 && !(cur.len() == 1 && cur[0] == '.');
    proof {
        if cur.len() == 1 && cur@[0] == '.' {
            assert(cur@ =~= seq!['.']);
        }
        if cur@ == seq!['.'] {
            assert(cur@[0] == '.');
        }
    }
    if keep {
        let ghost before = char_vec_views(done@);
        done.push(cur);
        assert(char_vec_views(done@) =~= before.push(cur@));
    }
}

/// The names of the components of the path `s`, as `path_names` says.
fn path_names_exec(s: &String) -> (r: Vec<Vec<char>>)
    ensures
        char_vec_views(r@) == path_names(s@),
{
    let cs = crate::text::chars_of(s.as_str());
    let mut done: Vec<Vec<char>> = Vec::new();
    let mut cur: Vec<char> = Vec::new();
    let mut i: usize = 0;
    assert(cs@.take(0) =~= Seq::<char>::empty());
    assert(char_vec_views(done@) =~= Seq::<Seq<char>>::empty());
    while i < cs.len()
        invariant
            i <= cs.len(),
            cs@ == s@,
            (char_vec_views(done@), cur@) == path_scan(cs@.take(i as int)),
        decreases cs.len() - i,
    {
        assert(cs@.take(i + 1).drop_last() =~= cs@.take(i as int));
        assert(cs@.take(i + 1).last() == cs@[i as int]);
        if cs[i] == '/' {
            let mut c: Vec<char> = Vec::new();
            std::mem::swap(&mut c, &mut cur);
            flush_exec(&mut done, c);
            assert(cur@ =~= Seq::<char>::empty());
        } else {
            cur.push(cs[i]);
        }
        i = i + 1;
    }
    assert(cs@.take(cs.len() as int) =~= cs@);
    flush_exec(&mut done, cur);
    done
}

fn same_chars(a: &Vec<char>, b: &Vec<char>) -> (r: bool)
    ensures
        r == (a@ == b@),
{
    if a.len() != b.len() {
        return false;
    }
    let mut i: usize = 0;
    while i < a.len()
        invariant
            i <= a.len() == b.len(),
            forall|j: int| 0 <= j < i ==> a@[j] == b@[j],
        decreases a.len() - i,
    {
        if a[i] != b[i] {
            return false;
        }
        i = i + 1;
    }
    assert(a@ =~= b@);
    true
}

fn same_names(a: &Vec<Vec<char>>, b: &Vec<Vec<char>>) -> (r: bool)
    ensures
        r == (char_vec_views(a@) == char_vec_views(b@)),
{
    let ghost av = char_vec_views(a@);
    let ghost bv = char_vec_views(b@);
    if a.len() != b.len() {
        assert(av.len() != bv.len());
        return false;
    }
    let mut i: usize = 0;
    while i < a.len()
        invariant
            i <= a.len() == b.len(),
            av == char_vec_views(a@),
            bv == char_vec_views(b@),
            forall|j: int| 0 <= j < i ==> av[j] == bv[j],
        decreases a.len() - i,
    {
        if !same_chars(&a[i], &b[i]) {
            assert(av[i as int] != bv[i as int]);
            return false;
        }
        i = i + 1;
    }
    assert(av =~= bv);
    true
}

/// Whether `a` and `b` are the same path, as [`same_path`] says.
pub fn same_path_exec(a: &String, b: &String) -> (r: bool)
    ensures
        r == same_path(a@, b@),
{
    let ac = crate::text::chars_of(a.as_str());
    let bc = crate::text::chars_of(b.as_str());
    let a_abs = ac.len() > 0 && ac[0] == '/';
    let b_abs = bc.len() > 0 && bc[0] == '/';
    let a_here = !a_abs && ac.len() > 0 && ac[0] == '.' && (ac.len() == 1 || ac[1] == '/');
    let b_here = !b_abs && bc.len() > 0 && bc[0] == '.' && (bc.len() == 1 || bc[1] == '/');
    if a_abs != b_abs || a_here != b_here {
        return false;
    }
    let an = path_names_exec(a);
    let bn = path_names_exec(b);
    same_names(&an, &bn)
}

/// Whether some path of `paths` is the same path as `path`.
pub fn contains_same_path(paths: &Vec<String>, path: &String) -> (r: bool)
    ensures
        r == has_same_path(paths@.map_values(|s: String| s@), path@),
{
    let ghost pv = paths@.map_values(|s: String| s@);
    let mut i: usize = 0;
    while i < paths.len()
        invariant
            i <= paths.len(),
            pv == paths@.map_values(|s: String| s@),
            forall|j: int| 0 <= j < i ==> !same_path(#[trigger] pv[j], path@),
        decreases paths.len() - i,
    {
        assert(pv[i as int] == paths@[i as int]@);
        if same_path_exec(&paths[i], path) {
            assert(same_path(pv[i as int], path@));
            return true;
        }
        i = i + 1;
    }
    false
}

/// A git worktree, as the repository reports it.
#[derive(Debug, PartialEq, Eq)]
pub struct GitWorktree {
    pub path: String,
    /// The reference checked out in it, where it is on a branch.
    pub ref_name: Option<String>,
    /// The name of the branch checked out in it, where there is one.
    pub branch_name: Option<String>,
    /// How the worktree is named to the user.
    pub display_name: String,
}

pub struct GitWorktreeV {
    pub path: Seq<char>,
    pub ref_name: Option<Seq<char>>,
    pub branch_name: Option<Seq<char>>,
    pub display_name: Seq<char>,
}

impl View for GitWorktree {
    type V = GitWorktreeV;

    open spec fn view(&self) -> GitWorktreeV {
        GitWorktreeV {
            path: self.path@,
            ref_name: opt_view(self.ref_name),
            branch_name: opt_view(self.branch_name),
            display_name: self.display_name@,
        }
    }
}

impl Clone for GitWorktree {
    fn clone(&self) -> (r: Self)
        ensures
            r@ == self@,
    {
        GitWorktree {
            path: self.path.clone(),
            ref_name: clone_opt(&self.ref_name),
            branch_name: clone_opt(&self.branch_name),
            display_name: self.display_name.clone(),
        }
    }
}

pub open spec fn worktree_views(v: Seq<GitWorktree>) -> Seq<GitWorktreeV> {
    v.map_values(|w: GitWorktree| w@)
}

} // verus!

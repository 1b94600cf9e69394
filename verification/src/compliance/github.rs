//! The GitHub side of the compliance check: who wrote a commit, who may
//! approve it, and the query that asks GitHub about co-authors.
use crate::compliance::git::CommitSha;
use crate::text::chars_of;
use crate::text::push_char;
use vstd::prelude::*;
use vstd::std_specs::cmp::PartialEqSpec;
use vstd::std_specs::cmp::PartialEqSpecImpl;
use vstd::string::StringExecFns;

verus! {

/// The fields that the query asks GitHub for, for each commit.
pub const FRAGMENT: &'static str = r#"
            ... on Commit {
                author {
                    name
                    email
                    user { login }
                }
                authors(first: 10) {
                    nodes {
                        name
                        email
                        user { login }
                    }
                }
            }
        "#;

/// The organization whose members may approve changes.
pub open spec fn org() -> Seq<char> {
    "zed-industries"@
}

/// The repository that is checked.
pub open spec fn repo() -> Seq<char> {
    "zed"@
}

/// A GitHub account name.
#[derive(Debug, Eq)]
pub struct GithubLogin {
    login: String,
}

impl View for GithubLogin {
    type V = Seq<char>;

    closed spec fn view(&self) -> Seq<char> {
        self.login@
    }
}

impl PartialEq for GithubLogin {
    fn eq(&self, other: &Self) -> (r: bool) {
        self.login == other.login
    }
}

impl PartialEqSpecImpl for GithubLogin {
    open spec fn obeys_eq_spec() -> bool {
        true
    }

    open spec fn eq_spec(&self, other: &Self) -> bool {
        self@ == other@
    }
}

/// Two logins are equal exactly when their names are: as
/// [`GithubLogin::new`] keeps the name it is given, `new(s) == new(t)` holds
/// exactly when `s == t`.
pub proof fn lemma_login_equality(a: GithubLogin, b: GithubLogin)
    ensures
        PartialEqSpec::eq_spec(&a, &b) <==> a@ == b@,
{
}

impl Clone for GithubLogin {
    fn clone(&self) -> (r: Self)
        ensures
            r@ == self@,
    {
        GithubLogin { login: self.login.clone() }
    }
}

impl GithubLogin {
    pub fn new(login: String) -> (r: Self)
        ensures
            r@ == login@,
    {
        GithubLogin { login }
    }

    pub fn as_str(&self) -> (r: &str)
        ensures
            r@ == self@,
    {
        self.login.as_str()
    }
}

/// An author of a commit as GitHub reports it: name, email, and the account
/// it belongs to, where GitHub knows one.
#[derive(Debug)]
pub struct CommitAuthor {
    name: String,
    email: String,
    user: Option<GithubLogin>,
}

pub struct CommitAuthorV {
    pub name: Seq<char>,
    pub email: Seq<char>,
    pub user: Option<Seq<char>>,
}

impl View for CommitAuthor {
    type V = CommitAuthorV;

    closed spec fn view(&self) -> CommitAuthorV {
        CommitAuthorV {
            name: self.name@,
            email: self.email@,
            user: match self.user {
                Some(u) => Some(u@),
                None => None,
            },
        }
    }
}

/// Whether two commit authors are the same person: by account where both
/// have one, else by email or by name.
pub open spec fn same_author(a: CommitAuthorV, b: CommitAuthorV) -> bool {
    match (a.user, b.user) {
        (Some(l), Some(r)) => l == r,
        _ => a.email == b.email || a.name == b.name,
    }
}

impl PartialEq for CommitAuthor {
    fn eq(&self, other: &Self) -> (r: bool) {
        match (&self.user, &other.user) {
            (Some(l), Some(r)) => l.login == r.login,
            _ => self.email == other.email || self.name == other.name,
        }
    }
}

impl PartialEqSpecImpl for CommitAuthor {
    open spec fn obeys_eq_spec() -> bool {
        true
    }

    open spec fn eq_spec(&self, other: &Self) -> bool {
        same_author(self@, other@)
    }
}

impl Clone for CommitAuthor {
    fn clone(&self) -> (r: Self)
        ensures
            r@ == self@,
    {
        let user = match &self.user {
            Some(u) => Some(u.clone()),
            None => None,
        };
        CommitAuthor { name: self.name.clone(), email: self.email.clone(), user }
    }
}

impl CommitAuthor {
    pub fn new(name: String, email: String, user: Option<GithubLogin>) -> (r: Self)
        ensures
            r@ == (CommitAuthorV {
                name: name@,
                email: email@,
                user: match user {
                    Some(u) => Some(u@),
                    None => None,
                },
            }),
    {
        CommitAuthor { name, email, user }
    }

    pub fn user(&self) -> (r: Option<&GithubLogin>)
        ensures
            match r {
                Some(u) => self@.user == Some(u@),
                None => self@.user is None,
            },
    {
        self.user.as_ref()
    }

    pub fn name(&self) -> (r: &str)
        ensures
            r@ == self@.name,
    {
        self.name.as_str()
    }

    pub fn email(&self) -> (r: &str)
        ensures
            r@ == self@.email,
    {
        self.email.as_str()
    }
}

pub open spec fn author_views(v: Seq<CommitAuthor>) -> Seq<CommitAuthorV> {
    v.map_values(|a: CommitAuthor| a@)
}

/// The primary author of a commit and all of its authors.
#[derive(Debug)]
pub struct CommitAuthors {
    primary_author: CommitAuthor,
    co_authors: Vec<CommitAuthor>,
}

pub struct CommitAuthorsV {
    pub primary_author: CommitAuthorV,
    pub co_authors: Seq<CommitAuthorV>,
}

impl View for CommitAuthors {
    type V = CommitAuthorsV;

    closed spec fn view(&self) -> CommitAuthorsV {
        CommitAuthorsV {
            primary_author: self.primary_author@,
            co_authors: author_views(self.co_authors@),
        }
    }
}

/// The authors of a commit other than its primary author; `None` when GitHub
/// lists no authors at all.
pub open spec fn other_authors(a: CommitAuthorsV) -> Option<Seq<CommitAuthorV>> {
    if a.co_authors.len() == 0 {
        None
    } else {
        Some(a.co_authors.filter_map(|c: CommitAuthorV| if same_author(c, a.primary_author) { None::<CommitAuthorV> } else { Some(c) }))
    }
}

impl CommitAuthors {
    pub fn new(primary_author: CommitAuthor, co_authors: Vec<CommitAuthor>) -> (r: Self)
        ensures
            r@ == (CommitAuthorsV { primary_author: primary_author@, co_authors: author_views(co_authors@) }),
    {
        CommitAuthors { primary_author, co_authors }
    }

    /// The commit's authors other than its primary author.
    pub fn co_authors(&self) -> (r: Option<Vec<CommitAuthor>>)
        ensures
            match r {
                Some(v) => other_authors(self@) == Some(author_views(v@)),
                None => other_authors(self@) is None,
            },
    {
        if self.co_authors.len() == 0 {
            return None;
        }
        let ghost all = author_views(self.co_authors@);
        let ghost f = |c: CommitAuthorV| if same_author(c, self@.primary_author) { None::<CommitAuthorV> } else { Some(c) };
        let mut res: Vec<CommitAuthor> = Vec::new();
        let mut i: usize = 0;
        while i < self.co_authors.len()
            invariant
                i <= self.co_authors.len(),
                all == author_views(self.co_authors@),
                f == (|c: CommitAuthorV| if same_author(c, self@.primary_author) { None::<CommitAuthorV> } else { Some(c) }),
                author_views(res@) == all.take(i as int).filter_map(f),
            decreases self.co_authors.len() - i,
        {
            proof {
                all.lemma_filter_map_take_succ(f, i as int);
            }
            let c = &self.co_authors[i];
            if !(*c == self.primary_author) {
                res.push(c.clone());
                assert(author_views(res@) =~= all.take(i + 1).filter_map(f));
            }
            i = i + 1;
        }
        assert(all.take(self.co_authors.len() as int) =~= all);
        Some(res)
    }
}

/// A key of GitHub's answer without the `commit` that the query put in front
/// of each hash (a GraphQL alias cannot start with a digit).
pub open spec fn strip_commit_prefix(k: Seq<char>) -> Seq<char> {
    if k.len() >= 6 && k.take(6) == "commit"@ {
        k.skip(6)
    } else {
        k
    }
}

/// The authors of each commit, keyed by hash; where a hash comes more than
/// once, the later entry counts.
pub open spec fn authors_map(entries: Seq<(Seq<char>, CommitAuthorsV)>) -> Map<
    Seq<char>,
    CommitAuthorsV,
>
    decreases entries.len(),
{
    if entries.len() == 0 {
        Map::empty()
    } else {
        authors_map(entries.drop_last()).insert(entries.last().0, entries.last().1)
    }
}

/// The authors of the commits that GitHub was asked about, by hash.
#[derive(Debug)]
pub struct AuthorsForCommits(Vec<(CommitSha, CommitAuthors)>);

pub open spec fn entry_views(v: Seq<(CommitSha, CommitAuthors)>) -> Seq<(Seq<char>, CommitAuthorsV)> {
    v.map_values(|e: (CommitSha, CommitAuthors)| (e.0.0@, e.1@))
}

impl View for AuthorsForCommits {
    type V = Map<Seq<char>, CommitAuthorsV>;

    closed spec fn view(&self) -> Map<Seq<char>, CommitAuthorsV> {
        authors_map(entry_views(self.0@))
    }
}

pub open spec fn raw_entry_views(v: Seq<(String, CommitAuthors)>) -> Seq<(Seq<char>, CommitAuthorsV)> {
    v.map_values(|e: (String, CommitAuthors)| (strip_commit_prefix(e.0@), e.1@))
}

/// `key` without a leading `commit`.
pub fn strip_commit_prefix_exec(key: &str) -> (r: String)
    ensures
        r@ == strip_commit_prefix(key@),
{
    let cs = chars_of(key);
    let prefix = chars_of("commit");
    proof {
        reveal_strlit("commit");
    }
    if crate::text::occurs_at_exec(&cs, &prefix, 0) {
        let r = crate::text::string_of_range(&cs, 6, cs.len());
        assert(cs@.subrange(6, cs.len() as int) =~= cs@.skip(6));
        assert(cs@.subrange(0, 6) =~= cs@.take(6));
        r
    } else {
        proof {
            if cs@.len() >= 6 && cs@.take(6) == "commit"@ {
                assert(cs@.subrange(0, 6) =~= cs@.take(6));
            }
        }
        key.to_owned()
    }
}

impl AuthorsForCommits {
    /// The authors from GitHub's answer, whose keys are the hashes with
    /// `commit` in front.
    pub fn from_response(entries: Vec<(String, CommitAuthors)>) -> (r: Self)
        ensures
            r@ == authors_map(raw_entry_views(entries@)),
    {
        let ghost raw = raw_entry_views(entries@);
        let mut rev = entries;
        let mut fwd: Vec<(String, CommitAuthors)> = Vec::new();
        while rev.len() > 0
            invariant
                raw == raw_entry_views(rev@ + fwd@.reverse()),
            decreases rev.len(),
        {
            let ghost before = rev@ + fwd@.reverse();
            let e = rev.pop().unwrap();
            fwd.push(e);
            assert(rev@ + fwd@.reverse() =~= before);
        }
        let mut out: Vec<(CommitSha, CommitAuthors)> = Vec::new();
        let ghost all = fwd@.reverse();
        while fwd.len() > 0
            invariant
                raw == raw_entry_views(all),
                entry_views(out@) == raw.take(out@.len() as int),
                out@.len() + fwd@.len() == all.len(),
                fwd@.reverse() == all.skip(out@.len() as int),
            decreases fwd.len(),
        {
            let ghost k = out@.len() as int;
            let ghost old_fwd = fwd@;
            let (key, authors) = fwd.pop().unwrap();
            proof {
                assert(all.skip(k)[0] == (key, authors));
            }
            let sha = CommitSha(strip_commit_prefix_exec(key.as_str()));
            out.push((sha, authors));
            proof {
                assert(entry_views(out@) =~= raw.take(k + 1));
                assert(fwd@ =~= old_fwd.drop_last());
                assert forall|j: int| 0 <= j < fwd@.len() implies #[trigger] fwd@.reverse()[j] == all.skip(k + 1)[j] by {
                    assert(fwd@.reverse()[j] == fwd@[fwd@.len() - 1 - j]);
                    assert(old_fwd.reverse()[j + 1] == old_fwd[old_fwd.len() - 1 - (j + 1)]);
                    assert(all.skip(k)[j + 1] == all.skip(k + 1)[j]);
                }
                assert(fwd@.reverse() =~= all.skip(k + 1));
            }
        }
        assert(raw.take(raw.len() as int) =~= raw);
        AuthorsForCommits(out)
    }

    /// The authors of the commit with hash `sha`.
    pub fn get(&self, sha: &CommitSha) -> (r: Option<&CommitAuthors>)
        ensures
            match r {
                Some(a) => self@.contains_key(sha.0@) && self@[sha.0@] == a@,
                None => !self@.contains_key(sha.0@),
            },
    {
        let ghost es = entry_views(self.0@);
        let mut i = self.0.len();
        assert(es.take(i as int) =~= es);
        while i > 0
            invariant
                i <= self.0.len(),
                es == entry_views(self.0@),
                authors_map(es).contains_key(sha.0@) == authors_map(es.take(i as int)).contains_key(sha.0@),
                authors_map(es).contains_key(sha.0@) ==> authors_map(es)[sha.0@] == authors_map(es.take(i as int))[sha.0@],
            decreases i,
        {
            proof {
                assert(es.take(i as int).drop_last() =~= es.take(i - 1));
            }
            let e = &self.0[i - 1];
            if e.0.0 == sha.0 {
                return Some(&e.1);
            }
            i = i - 1;
        }
        assert(es.take(0) =~= Seq::<(Seq<char>, CommitAuthorsV)>::empty());
        None
    }
}

/// The fields that the query asks for of each commit.
pub open spec fn fragment() -> Seq<char> {
    FRAGMENT@
}

/// The part of the query that asks for one commit, under the alias
/// `commit{sha}`.
pub open spec fn commit_object(sha: Seq<char>) -> Seq<char> {
    "commit"@ + sha + ": object(oid: \""@ + sha + "\") { "@ + fragment() + " }"@
}

/// `parts` joined by line breaks.
pub open spec fn join_lines(parts: Seq<Seq<char>>) -> Seq<char>
    decreases parts.len(),
{
    if parts.len() == 0 {
        Seq::empty()
    } else if parts.len() == 1 {
        parts[0]
    } else {
        join_lines(parts.drop_last()) + seq!['\n'] + parts.last()
    }
}

/// `s` without its line breaks.
pub open spec fn without_newlines(s: Seq<char>) -> Seq<char>
    decreases s.len(),
{
    if s.len() == 0 {
        s
    } else if s.last() == '\n' {
        without_newlines(s.drop_last())
    } else {
        without_newlines(s.drop_last()).push(s.last())
    }
}

/// The GraphQL query for the authors of the commits with hashes `shas`, on one
/// line.
pub open spec fn co_authors_query(shas: Seq<Seq<char>>) -> Seq<char> {
    without_newlines(
        "{  repository(owner: \""@ + org() + "\", name: \""@ + repo() + "\") { "@ + join_lines(
            shas.map_values(|s: Seq<char>| commit_object(s)),
        ) + "  } }"@,
    )
}

pub open spec fn sha_views(v: Seq<CommitSha>) -> Seq<Seq<char>> {
    v.map_values(|s: CommitSha| s.0@)
}

/// The GraphQL query for the authors of the commits with hashes `shas`.
pub fn build_co_authors_query(shas: &Vec<CommitSha>) -> (r: String)
    ensures
        r@ == co_authors_query(sha_views(shas@)),
{
    let ghost objects = sha_views(shas@).map_values(|s: Seq<char>| commit_object(s));
    let mut q = "{  repository(owner: \"".to_owned();
    q.append("zed-industries");
    q.append("\", name: \"");
    q.append("zed");
    q.append("\") { ");
    let ghost head = q@;
    let mut i: usize = 0;
    while i < shas.len()
        invariant
            i <= shas.len(),
            objects == sha_views(shas@).map_values(|s: Seq<char>| commit_object(s)),
            q@ == head + join_lines(objects.take(i as int)),
        decreases shas.len() - i,
    {
        if i > 0 {
            push_char(&mut q, '\n');
        }
        let sha = shas[i].0.as_str();
        q.append("commit");
        q.append(sha);
        q.append(": object(oid: \"");
        q.append(sha);
        q.append("\") { ");
        q.append(FRAGMENT);
        q.append(" }");
        proof {
            assert(objects.take(i + 1).drop_last() =~= objects.take(i as int));
            assert(objects[i as int] == commit_object(shas@[i as int].0@));
            if i == 0 {
                assert(objects.take(1)[0] == objects[0]);
            }
            assert(q@ =~= head + join_lines(objects.take(i + 1)));
        }
        i = i + 1;
    }
    q.append("  } }");
    proof {
        assert(objects.take(shas.len() as int) =~= objects);
    }
    let all = chars_of(q.as_str());
    let mut r = String::new();
    let mut k: usize = 0;
    while k < all.len()
        invariant
            k <= all.len(),
            r@ == without_newlines(all@.take(k as int)),
        decreases all.len() - k,
    {
        proof {
            assert(all@.take(k + 1).drop_last() =~= all@.take(k as int));
        }
        if all[k] != '\n' {
            push_char(&mut r, all[k]);
        }
        k = k + 1;
    }
    assert(all@.take(all.len() as int) =~= all@);
    r
}

pub open spec fn string_views(v: Seq<String>) -> Seq<Seq<char>> {
    v.map_values(|s: String| s@)
}

/// The members of the organization, once they have been fetched.
pub struct OrganizationMembers {
    members: Option<Vec<String>>,
}

impl View for OrganizationMembers {
    type V = Option<Seq<Seq<char>>>;

    closed spec fn view(&self) -> Option<Seq<Seq<char>>> {
        match self.members {
            Some(v) => Some(string_views(v@)),
            None => None,
        }
    }
}

impl OrganizationMembers {
    /// Members that have not been fetched yet.
    pub fn new() -> (r: Self)
        ensures
            r@ is None,
    {
        OrganizationMembers { members: None }
    }

    /// Keeps the fetched members.
    pub fn set(&mut self, members: Vec<String>)
        ensures
            final(self)@ == Some(string_views(members@)),
    {
        self.members = Some(members);
    }

    /// Keeps the members that a fetch gathered over all pages. A fetch that
    /// failed on the way is never stored, so the members stay unknown.
    pub fn store(&mut self, fetch: MemberFetch)
        requires
            fetch@.next is None,
        ensures
            final(self)@ == Some(fetch@.logins),
    {
        self.members = Some(fetch.logins);
    }

    /// Whether `login` is a member; `None` while the members have not been
    /// fetched.
    pub fn contains(&self, login: &GithubLogin) -> (r: Option<bool>)
        ensures
            match self@ {
                Some(ms) => r == Some(ms.contains(login@)),
                None => r is None,
            },
    {
        match &self.members {
            None => None,
            Some(ms) => {
                let ghost v = string_views(ms@);
                let mut i: usize = 0;
                while i < ms.len()
                    invariant
                        i <= ms.len(),
                        v == string_views(ms@),
                        self@ == Some(v),
                        forall|j: int| 0 <= j < i ==> v[j] != login@,
                    decreases ms.len() - i,
                {
                    if ms[i] == login.login {
                        assert(v[i as int] == login@);
                        assert(v.contains(login@));
                        return Some(true);
                    }
                    i = i + 1;
                }
                assert(!v.contains(login@));
                Some(false)
            },
        }
    }
}

/// The page of members to fetch after page `page`: the next one while GitHub
/// says the results are incomplete or links a next page, none after that.
pub open spec fn next_members_page(page: u32, incomplete_results: Option<bool>, has_next: bool) -> Option<u32> {
    if incomplete_results == Some(true) || has_next {
        Some((page + 1) as u32)
    } else {
        None
    }
}

pub fn next_members_page_exec(page: u32, incomplete_results: Option<bool>, has_next: bool) -> (r: Option<u32>)
    requires
        page < u32::MAX,
    ensures
        r == next_members_page(page, incomplete_results, has_next),
{
    let incomplete = match incomplete_results {
        Some(b) => b,
        None => false,
    };
    if incomplete || has_next {
        Some(page + 1)
    } else {
        None
    }
}

/// The members of the organization gathered page by page: the logins of the
/// pages fetched so far, and the page to fetch next, if any.
pub struct MemberFetch {
    logins: Vec<String>,
    next: Option<u32>,
}

pub struct MemberFetchV {
    pub logins: Seq<Seq<char>>,
    pub next: Option<u32>,
}

impl View for MemberFetch {
    type V = MemberFetchV;

    closed spec fn view(&self) -> MemberFetchV {
        MemberFetchV { logins: string_views(self.logins@), next: self.next }
    }
}

impl MemberFetch {
    /// A fetch that starts at the first page.
    pub fn new() -> (r: Self)
        ensures
            r@ == (MemberFetchV { logins: Seq::empty(), next: Some(1) }),
    {
        let r = MemberFetch { logins: Vec::new(), next: Some(1) };
        assert(r@.logins =~= Seq::<Seq<char>>::empty());
        r
    }

    /// The page to fetch next; `None` once every page is in.
    pub fn next_page(&self) -> (r: Option<u32>)
        ensures
            r == self@.next,
    {
        self.next
    }

    /// How many logins have been gathered.
    pub fn len(&self) -> (r: usize)
        ensures
            r == self@.logins.len(),
    {
        self.logins.len()
    }

    /// Takes in the logins of the page just fetched, and whether GitHub said
    /// the results are incomplete or linked a next page: the logins join
    /// those gathered so far, in order, and the next page follows while GitHub
    /// says there is more.
    pub fn on_page(&mut self, logins: Vec<String>, incomplete_results: Option<bool>, has_next: bool)
        requires
            old(self)@.next matches Some(p) && p < u32::MAX,
        ensures
            final(self)@ == (MemberFetchV {
                logins: old(self)@.logins + string_views(logins@),
                next: next_members_page(old(self)@.next->0, incomplete_results, has_next),
            }),
    {
        let page = self.next.unwrap();
        let ghost before = string_views(self.logins@);
        let more = logins;
        let mut i: usize = 0;
        let ghost added = string_views(more@);
        while i < more.len()
            invariant
                i <= more.len(),
                added == string_views(more@),
                string_views(self.logins@) == before + added.take(i as int),
                self.next == Some(page),
            decreases more.len() - i,
        {
            let l = more[i].clone();
            let ghost prev = string_views(self.logins@);
            self.logins.push(l);
            proof {
                assert(string_views(self.logins@) =~= prev.push(l@));
                assert(added.take(i + 1) =~= added.take(i as int).push(added[i as int]));
            }
            i = i + 1;
        }
        assert(added.take(more.len() as int) =~= added);
        self.next = next_members_page_exec(page, incomplete_results, has_next);
    }
}

/// The id of the first installation of the app on the organization's account,
/// given each installation's account name and id.
pub fn select_installation(installations: &Vec<(String, u64)>) -> (r: Option<u64>)
    ensures
        match r {
            Some(id) => exists|i: int|
                0 <= i < installations@.len() && installations@[i].0@ == org()
                    && installations@[i].1 == id && forall|j: int|
                    0 <= j < i ==> installations@[j].0@ != org(),
            None => forall|i: int| 0 <= i < installations@.len() ==> installations@[i].0@ != org(),
        },
{
    let org_name = "zed-industries".to_owned();
    let mut i: usize = 0;
    while i < installations.len()
        invariant
            i <= installations.len(),
            org_name@ == org(),
            forall|j: int| 0 <= j < i ==> installations@[j].0@ != org(),
        decreases installations.len() - i,
    {
        if installations[i].0 == org_name {
            return Some(installations[i].1);
        }
        i = i + 1;
    }
    None
}

} // verus!

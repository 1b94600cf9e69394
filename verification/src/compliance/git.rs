//! Reading the commits of a release out of `git log`.
use crate::compliance::VersionTag;
use crate::text::chars_of;
use crate::text::find_from;
use crate::text::decimal;
use crate::text::find_from_exec;
use crate::text::is_digit;
use crate::text::lemma_decimal_digits;
use crate::text::lemma_find_first_at;
use crate::text::is_whitespace;
use crate::text::lemma_trim_strips_both_ends;
use crate::text::lemma_find_last_skip;
use crate::text::lemma_no_occurrence_at;
use crate::text::lemma_parse_decimal;
use crate::text::lemma_find_from_bounds;
use crate::text::lemma_find_last_bounds;
use crate::text::occurs_at;
use crate::text::parse_u64;
use crate::text::parse_u64_exec;
use crate::text::push_char;
use crate::text::rfind;
use crate::text::rfind_exec;
use crate::text::split_from;
use crate::text::split_once;
use crate::text::string_of;
use crate::text::string_of_range;
use crate::text::trim;
use crate::text::trim_bounds;
use vstd::prelude::*;
use vstd::string::StringExecFns;

verus! {

/// The hash of a commit.
#[derive(Debug, PartialEq, Eq, Hash)]
pub struct CommitSha(pub String);

/// The name and email address of whoever wrote a commit.
#[derive(Debug, PartialEq, Eq)]
pub struct Committer {
    name: String,
    email: String,
}

pub struct CommitterV {
    pub name: Seq<char>,
    pub email: Seq<char>,
}

impl View for Committer {
    type V = CommitterV;

    closed spec fn view(&self) -> CommitterV {
        CommitterV { name: self.name@, email: self.email@ }
    }
}

/// How a committer is shown: `name (email)`.
pub open spec fn committer_text(c: CommitterV) -> Seq<char> {
    c.name + seq![' ', '('] + c.email + seq![')']
}

impl Clone for Committer {
    fn clone(&self) -> (r: Self)
        ensures
            r@ == self@,
    {
        Committer { name: self.name.clone(), email: self.email.clone() }
    }
}

impl Committer {
    pub fn new(name: &str, email: &str) -> (r: Self)
        ensures
            r@ == (CommitterV { name: name@, email: email@ }),
    {
        Committer { name: name.to_owned(), email: email.to_owned() }
    }

    pub fn name(&self) -> (r: &str)
        ensures
            r@ == self@.name,
    {
        self.name.as_str()
    }

    pub fn email(&self) -> (r: &str)
        ensures
            r@ == self@.email,
    {
        self.email.as_str()
    }

    /// How the committer is shown: `name (email)`.
    pub fn to_text(&self) -> (r: String)
        ensures
            r@ == committer_text(self@),
    {
        let mut s = self.name.clone();
        push_char(&mut s, ' ');
        push_char(&mut s, '(');
        s.append(self.email.as_str());
        push_char(&mut s, ')');
        assert(s@ =~= committer_text(self@));
        s
    }
}

/// What `git log` says of one commit.
#[derive(Debug, PartialEq, Eq)]
pub struct CommitDetails {
    sha: CommitSha,
    author: Committer,
    title: String,
    body: String,
}

pub struct CommitDetailsV {
    pub sha: Seq<char>,
    pub author: CommitterV,
    pub title: Seq<char>,
    pub body: Seq<char>,
}

impl View for CommitDetails {
    type V = CommitDetailsV;

    closed spec fn view(&self) -> CommitDetailsV {
        CommitDetailsV {
            sha: self.sha.0@,
            author: self.author@,
            title: self.title@,
            body: self.body@,
        }
    }
}

/// Separates the first line of a commit's entry from its body.
pub open spec fn body_delimiter() -> Seq<char> {
    "|body-delimiter|"@
}

/// Ends each commit's entry.
pub open spec fn commit_delimiter() -> Seq<char> {
    "|commit-delimiter|"@
}

/// Separates the fields of a commit's first line.
pub open spec fn field_delimiter() -> Seq<char> {
    "|field-delimiter|"@
}

/// The `--pretty` format that makes `git log` print what
/// [`CommitList::from_str`] reads.
pub open spec fn format_string() -> Seq<char> {
    "%H|field-delimiter|%an|field-delimiter|%ae|field-delimiter|%s|body-delimiter|%b|commit-delimiter|"@
}

/// The four fields of a commit's first line: hash, author name, author email
/// and title. They are separated by the field delimiter; the title is all that
/// follows the third one. `None` when there are fewer than three delimiters.
pub open spec fn commit_fields(line: Seq<char>) -> Option<
    (Seq<char>, Seq<char>, Seq<char>, Seq<char>),
> {
    let d = field_delimiter();
    match find_from(line, d, 0) {
        Some(i1) => match find_from(line, d, i1 + d.len()) {
            Some(i2) => match find_from(line, d, i2 + d.len()) {
                Some(i3) => Some(
                    (
                        line.take(i1),
                        line.subrange(i1 + d.len(), i2),
                        line.subrange(i2 + d.len(), i3),
                        line.skip(i3 + d.len()),
                    ),
                ),
                None => None,
            },
            None => None,
        },
        None => None,
    }
}

/// The commit that a first line and a body describe.
pub open spec fn commit_from_fields(
    f: (Seq<char>, Seq<char>, Seq<char>, Seq<char>),
    body: Seq<char>,
) -> CommitDetailsV {
    CommitDetailsV {
        sha: f.0,
        author: CommitterV { name: f.1, email: f.2 },
        title: f.3,
        body: body,
    }
}

/// A commit's first line that does not hold its four fields.
#[derive(Debug, PartialEq, Eq)]
pub struct CommitParseError {
    pub line: String,
}

/// The number of the pull request that a squash-merged commit's title ends
/// with, as in `Fix the thing (#12345)`: the digits after the last ` (#` up to
/// the next `)`.
pub open spec fn pr_number_of(title: Seq<char>) -> Option<u64> {
    match rfind(title, " (#"@) {
        Some(loc) => match find_from(title, seq![')'], loc) {
            Some(end) => parse_u64(title.subrange(loc + 3, end)),
            None => None,
        },
        None => None,
    }
}

pub fn slice_chars(cs: &Vec<char>, from: usize, to: usize) -> (r: Vec<char>)
    requires
        from <= to <= cs.len(),
    ensures
        r@ == cs@.subrange(from as int, to as int),
{
    let mut r: Vec<char> = Vec::new();
    let mut i = from;
    while i < to
        invariant
            from <= i <= to <= cs.len(),
            r@ == cs@.subrange(from as int, i as int),
        decreases to - i,
    {
        r.push(cs[i]);
        proof {
            assert(cs@.subrange(from as int, i + 1) =~= r@);
        }
        i = i + 1;
    }
    r
}

impl CommitDetails {
    /// Reads a commit from the first line of its entry and its body.
    pub fn parse(line: &str, body: &str) -> (r: Result<CommitDetails, CommitParseError>)
        ensures
            match r {
                Ok(c) => commit_fields(line@) is Some && c@ == commit_from_fields(
                    commit_fields(line@)->0,
                    body@,
                ),
                Err(e) => commit_fields(line@) is None && e.line@ == line@,
            },
    {
        let cs = chars_of(line);
        let d = chars_of("|field-delimiter|");
        let dl = d.len();
        let total = cs.len();
        let i1 = match find_from_exec(&cs, &d, 0) {
            Some(i) => i,
            None => return Err(CommitParseError { line: line.to_owned() }),
        };
        proof {
            lemma_find_from_bounds(cs@, d@, 0);
            assert(i1 + dl <= total);
        }
        let i2 = match find_from_exec(&cs, &d, i1 + dl) {
            Some(i) => i,
            None => return Err(CommitParseError { line: line.to_owned() }),
        };
        proof {
            lemma_find_from_bounds(cs@, d@, i1 + dl);
            assert(i2 + dl <= total);
        }
        let i3 = match find_from_exec(&cs, &d, i2 + dl) {
            Some(i) => i,
            None => return Err(CommitParseError { line: line.to_owned() }),
        };
        proof {
            lemma_find_from_bounds(cs@, d@, i2 + dl);
        }
        let sha = string_of_range(&cs, 0, i1);
        let name = string_of_range(&cs, i1 + dl, i2);
        let email = string_of_range(&cs, i2 + dl, i3);
        let title = string_of_range(&cs, i3 + dl, cs.len());
        proof {
            assert(cs@.subrange(0, i1 as int) =~= cs@.take(i1 as int));
            assert(cs@.subrange(i3 + dl, cs.len() as int) =~= cs@.skip(i3 + dl));
        }
        Ok(
            CommitDetails {
                sha: CommitSha(sha),
                author: Committer { name, email },
                title,
                body: body.to_owned(),
            },
        )
    }

    pub fn author(&self) -> (r: &Committer)
        ensures
            r@ == self@.author,
    {
        &self.author
    }

    pub fn title(&self) -> (r: &str)
        ensures
            r@ == self@.title,
    {
        self.title.as_str()
    }

    pub fn sha(&self) -> (r: &CommitSha)
        ensures
            r.0@ == self@.sha,
    {
        &self.sha
    }

    pub fn body(&self) -> (r: &str)
        ensures
            r@ == self@.body,
    {
        self.body.as_str()
    }

    /// The number of the pull request that the commit's title names.
    pub fn pr_number(&self) -> (r: Option<u64>)
        ensures
            r == pr_number_of(self@.title),
    {
        let t = chars_of(self.title.as_str());
        let pattern = chars_of(" (#");
        proof {
            reveal_strlit(" (#");
        }
        let loc = match rfind_exec(&t, &pattern) {
            Some(loc) => loc,
            None => return None,
        };
        proof {
            lemma_find_last_bounds(t@, pattern@, t@.len() - pattern@.len());
        }
        let close = chars_of(")");
        proof {
            reveal_strlit(")");
            assert(close@ =~= seq![')']);
        }
        let end = match find_from_exec(&t, &close, loc) {
            Some(end) => end,
            None => return None,
        };
        proof {
            assert(t@.subrange(loc as int, loc + 3) == pattern@);
            assert(t@[loc as int] == ' ' && t@[loc + 1] == '(' && t@[loc + 2] == '#') by {
                assert(t@.subrange(loc as int, loc + 3)[0] == t@[loc as int]);
                assert(t@.subrange(loc as int, loc + 3)[1] == t@[loc + 1]);
                assert(t@.subrange(loc as int, loc + 3)[2] == t@[loc + 2]);
            }
            lemma_find_char_skips(t@, loc as int, end as int);
        }
        parse_u64_exec(&t, loc + 3, end)
    }
}

/// A title that ends with ` (#n)`, as squash merges write it, names pull
/// request `n`, whatever comes before.
pub proof fn lemma_pr_number_of_squash_title(t: Seq<char>, n: u64)
    ensures
        pr_number_of(t + " (#"@ + decimal(n as nat) + ")"@) == Some(n),
{
    reveal_strlit(" (#");
    reveal_strlit(")");
    let p = " (#"@;
    let d = decimal(n as nat);
    let s = t + p + d + ")"@;
    let l = t.len() as int;
    let last = s.len() - 1;
    lemma_decimal_digits(n as nat);
    assert(s[l] == ' ' && s[l + 1] == '(' && s[l + 2] == '#' && s[last] == ')');
    assert forall|k: int| 0 <= k < d.len() implies #[trigger] s[l + 3 + k] == d[k] && is_digit(d[k]) by {}
    assert(s.subrange(l, l + 3) =~= p);
    assert forall|j: int| l < j <= s.len() - 3 implies !#[trigger] occurs_at(s, p, j) by {
        if j >= l + 3 {
            assert(s[l + 3 + (j - l - 3)] == d[j - l - 3]);
        }
        lemma_no_occurrence_at(s, p, j);
    }
    lemma_find_last_skip(s, p, s.len() - 3, l);
    assert(rfind(s, p) == Some(l));
    assert(s.subrange(last, last + 1) =~= seq![')']);
    assert forall|j: int| l <= j < last implies #[trigger] s[j] != seq![')'][0] by {
        if j >= l + 3 {
            assert(s[l + 3 + (j - l - 3)] == d[j - l - 3]);
        }
    }
    lemma_find_first_at(s, seq![')'], l, last);
    assert(s.subrange(l + 3, last) =~= d);
    lemma_parse_decimal(n);
}

/// A line in the form that the format string asks git for reads back as its
/// four fields, when the hash, name and email hold no `|`.
pub proof fn lemma_commit_fields_of_line(sha: Seq<char>, name: Seq<char>, email: Seq<char>, title: Seq<char>)
    requires
        !sha.contains('|'),
        !name.contains('|'),
        !email.contains('|'),
    ensures
        commit_fields(sha + field_delimiter() + name + field_delimiter() + email + field_delimiter() + title)
            == Some((sha, name, email, title)),
{
    reveal_strlit("|field-delimiter|");
    let d = field_delimiter();
    let line = sha + d + name + d + email + d + title;
    let dl = d.len() as int;
    let i1 = sha.len() as int;
    let i2 = i1 + dl + name.len();
    let i3 = i2 + dl + email.len();
    assert(d[0] == '|');
    assert(line.subrange(i1, i1 + dl) =~= d);
    assert(line.subrange(i2, i2 + dl) =~= d);
    assert(line.subrange(i3, i3 + dl) =~= d);
    assert forall|j: int| 0 <= j < i1 implies #[trigger] line[j] != d[0] by {
        assert(line[j] == sha[j]);
    }
    lemma_find_first_at(line, d, 0, i1);
    assert forall|j: int| i1 + dl <= j < i2 implies #[trigger] line[j] != d[0] by {
        assert(line[j] == name[j - i1 - dl]);
    }
    lemma_find_first_at(line, d, i1 + dl, i2);
    assert forall|j: int| i2 + dl <= j < i3 implies #[trigger] line[j] != d[0] by {
        assert(line[j] == email[j - i2 - dl]);
    }
    lemma_find_first_at(line, d, i2 + dl, i3);
    assert(line.take(i1) =~= sha);
    assert(line.subrange(i1 + dl, i2) =~= name);
    assert(line.subrange(i2 + dl, i3) =~= email);
    assert(line.skip(i3 + dl) =~= title);
}

/// A `)` found from `loc` on, where ` (#` starts, lies past the pattern.
proof fn lemma_find_char_skips(t: Seq<char>, loc: int, end: int)
    requires
        0 <= loc,
        loc + 3 <= t.len(),
        t[loc] == ' ',
        t[loc + 1] == '(',
        t[loc + 2] == '#',
        find_from(t, seq![')'], loc) == Some(end),
    ensures
        loc + 3 <= end <= t.len(),
{
    assert(!occurs_at(t, seq![')'], loc)) by {
        assert(t.subrange(loc, loc + 1)[0] == t[loc]);
    }
    assert(!occurs_at(t, seq![')'], loc + 1)) by {
        assert(t.subrange(loc + 1, loc + 2)[0] == t[loc + 1]);
    }
    assert(!occurs_at(t, seq![')'], loc + 2)) by {
        assert(t.subrange(loc + 2, loc + 3)[0] == t[loc + 2]);
    }
    assert(find_from(t, seq![')'], loc) == find_from(t, seq![')'], loc + 1));
    assert(find_from(t, seq![')'], loc + 1) == find_from(t, seq![')'], loc + 2));
    assert(find_from(t, seq![')'], loc + 2) == find_from(t, seq![')'], loc + 3));
    lemma_find_from_bounds(t, seq![')'], loc + 3);
}

/// What `regex::Regex::new(pattern)` and then `captures_iter(text)` yield:
/// for each match, in order, the text of capture groups 1 and 2, each `None`
/// where the group took no part in the match; `None` when the pattern does
/// not compile.
pub uninterp spec fn regex_groups_1_2(pattern: Seq<char>, text: Seq<char>) -> Option<
    Seq<(Option<Seq<char>>, Option<Seq<char>>)>,
>;

pub open spec fn opt_text(o: Option<String>) -> Option<Seq<char>> {
    match o {
        Some(s) => Some(s@),
        None => None,
    }
}

pub open spec fn group_pair_views(v: Seq<(Option<String>, Option<String>)>) -> Seq<
    (Option<Seq<char>>, Option<Seq<char>>),
> {
    v.map_values(|p: (Option<String>, Option<String>)| (opt_text(p.0), opt_text(p.1)))
}

/// Compiles `pattern` with `regex::Regex::new` and collects, for each match
/// of `captures_iter(text)`, capture groups 1 and 2.
#[verifier::external_body]
fn regex_groups(pattern: &str, text: &str) -> (r: Option<Vec<(Option<String>, Option<String>)>>)
    ensures
        match r {
            Some(v) => regex_groups_1_2(pattern@, text@) == Some(group_pair_views(v@)),
            None => regex_groups_1_2(pattern@, text@) is None,
        },
{
    let re = regex::Regex::new(pattern).ok()?;
    Some(
        re.captures_iter(text).map(
            |c| (c.get(1).map(|m| m.as_str().to_string()), c.get(2).map(|m| m.as_str().to_string())),
        ).collect(),
    )
}

/// The trailer that names a co-author: `Co-authored-by: name <email>`.
pub open spec fn co_author_pattern() -> Seq<char> {
    "Co-authored-by: (.+) <(.+)>"@
}

pub open spec fn committer_of_groups(p: (Option<Seq<char>>, Option<Seq<char>>)) -> Option<
    CommitterV,
> {
    match p {
        (Some(name), Some(email)) => Some(CommitterV { name, email }),
        _ => None,
    }
}

/// The co-authors that a commit body's trailers name, in order; `None` when
/// there are none.
pub open spec fn co_authors_of(body: Seq<char>) -> Option<Seq<CommitterV>> {
    match regex_groups_1_2(co_author_pattern(), body) {
        Some(groups) => co_authors_of_groups(groups),
        None => None,
    }
}

pub open spec fn committer_views(v: Seq<Committer>) -> Seq<CommitterV> {
    v.map_values(|c: Committer| c@)
}

impl CommitDetails {
    /// The co-authors that the commit's body names.
    pub fn co_authors(&self) -> (r: Option<Vec<Committer>>)
        ensures
            match r {
                Some(v) => co_authors_of(self@.body) == Some(committer_views(v@)),
                None => co_authors_of(self@.body) is None,
            },
    {
        match regex_groups("Co-authored-by: (.+) <(.+)>", self.body.as_str()) {
            Some(groups) => co_authors_from_groups(groups),
            None => None,
        }
    }
}

/// The co-authors that the trailers' capture groups name: a committer for
/// each match where both the name and the email took part, in order; `None`
/// when there is none.
pub open spec fn co_authors_of_groups(groups: Seq<(Option<Seq<char>>, Option<Seq<char>>)>) -> Option<Seq<CommitterV>> {
    let cs = groups.filter_map(|p: (Option<Seq<char>>, Option<Seq<char>>)| committer_of_groups(p));
    if cs.len() > 0 {
        Some(cs)
    } else {
        None
    }
}

/// The co-authors that the trailers' capture groups name, as
/// [`co_authors_of_groups`] says.
pub fn co_authors_from_groups(groups: Vec<(Option<String>, Option<String>)>) -> (r: Option<Vec<Committer>>)
    ensures
        match r {
            Some(v) => co_authors_of_groups(group_pair_views(groups@)) == Some(committer_views(v@)),
            None => co_authors_of_groups(group_pair_views(groups@)) is None,
        },
{
    let ghost gv = group_pair_views(groups@);
    let ghost f = |p: (Option<Seq<char>>, Option<Seq<char>>)| committer_of_groups(p);
    let mut res: Vec<Committer> = Vec::new();
    let mut i: usize = 0;
    while i < groups.len()
        invariant
            i <= groups.len(),
            gv == group_pair_views(groups@),
            f == (|p: (Option<Seq<char>>, Option<Seq<char>>)| committer_of_groups(p)),
            committer_views(res@) == gv.take(i as int).filter_map(f),
        decreases groups.len() - i,
    {
        proof {
            gv.lemma_filter_map_take_succ(f, i as int);
        }
        let pair = &groups[i];
        match pair {
            (Some(name), Some(email)) => {
                res.push(Committer { name: name.clone(), email: email.clone() });
                assert(committer_views(res@) =~= gv.take(i + 1).filter_map(f));
            },
            _ => {},
        }
        i = i + 1;
    }
    assert(gv.take(groups.len() as int) =~= gv);
    if res.len() == 0 {
        None
    } else {
        Some(res)
    }
}

/// The commits that `git log` printed, newest first.
#[derive(Debug, PartialEq, Eq)]
pub struct CommitList(Vec<CommitDetails>);

pub open spec fn commit_views(v: Seq<CommitDetails>) -> Seq<CommitDetailsV> {
    v.map_values(|c: CommitDetails| c@)
}

impl View for CommitList {
    type V = Seq<CommitDetailsV>;

    closed spec fn view(&self) -> Seq<CommitDetailsV> {
        commit_views(self.0@)
    }
}

/// The commit that one entry of the log describes: the entry is trimmed, its
/// first line is what comes before the body delimiter, its body what comes
/// after.
pub open spec fn entry_of(piece: Seq<char>) -> Option<CommitDetailsV> {
    match split_once(trim(piece), body_delimiter()) {
        Some((line, body)) => match commit_fields(line) {
            Some(f) => Some(commit_from_fields(f, body)),
            None => None,
        },
        None => None,
    }
}

/// The entries of a log: the pieces between commit delimiters.
pub open spec fn log_pieces(input: Seq<char>) -> Seq<Seq<char>> {
    split_from(input, commit_delimiter(), 0)
}

pub open spec fn commit_of_piece(p: Seq<char>) -> Option<CommitDetailsV> {
    if p.len() == 0 {
        None
    } else {
        entry_of(p)
    }
}

/// Whether every non-empty entry of a log describes a commit.
pub open spec fn log_well_formed(input: Seq<char>) -> bool {
    forall|i: int|
        0 <= i < log_pieces(input).len() && (#[trigger] log_pieces(input)[i]).len() > 0
            ==> entry_of(log_pieces(input)[i]) is Some
}

/// The commits that a log describes, one for each non-empty entry.
pub open spec fn log_commits(input: Seq<char>) -> Seq<CommitDetailsV> {
    log_pieces(input).filter_map(|p: Seq<char>| commit_of_piece(p))
}

/// The commit that an entry of the log describes starts its hash and ends its
/// body without whitespace, whatever whitespace (such as the line break that
/// `git log` puts between entries) surrounds the entry.
pub proof fn lemma_entry_trimmed(piece: Seq<char>)
    ensures
        entry_of(piece) matches Some(c) ==> (c.sha.len() > 0 ==> !is_whitespace(c.sha[0])) && (c.body.len() > 0
            ==> !is_whitespace(c.body.last())),
{
    let t = trim(piece);
    lemma_trim_strips_both_ends(piece);
    lemma_find_from_bounds(t, body_delimiter(), 0);
    if let Some(i) = find_from(t, body_delimiter(), 0) {
        let line = t.take(i);
        let body = t.skip(i + body_delimiter().len());
        let d = field_delimiter();
        lemma_find_from_bounds(line, d, 0);
        if let Some(i1) = find_from(line, d, 0) {
            let sha = line.take(i1);
            if sha.len() > 0 {
                assert(sha[0] == t[0]);
            }
        }
        if body.len() > 0 {
            assert(body.last() == t.last());
        }
    }
}

/// Every commit read out of a log starts its hash and ends its body without
/// whitespace: the line breaks between the entries stay out of the commits.
pub proof fn lemma_log_commits_trimmed(input: Seq<char>)
    ensures
        forall|i: int|
            0 <= i < log_commits(input).len() ==> {
                &&& (#[trigger] log_commits(input)[i]).sha.len() > 0 ==> !is_whitespace(log_commits(input)[i].sha[0])
                &&& log_commits(input)[i].body.len() > 0 ==> !is_whitespace(log_commits(input)[i].body.last())
            },
{
    let f = |p: Seq<char>| commit_of_piece(p);
    assert forall|i: int| 0 <= i < log_commits(input).len() implies {
        &&& (#[trigger] log_commits(input)[i]).sha.len() > 0 ==> !is_whitespace(log_commits(input)[i].sha[0])
        &&& log_commits(input)[i].body.len() > 0 ==> !is_whitespace(log_commits(input)[i].body.last())
    } by {
        let c = log_commits(input)[i];
        assert(log_commits(input).contains(c));
        log_pieces(input).lemma_filter_map_contains(f, c);
        let p = choose|p: Seq<char>| #[trigger] log_pieces(input).contains(p) && f(p) == Some(c);
        lemma_entry_trimmed(p);
    }
}

pub open spec fn entry_ok(p: Seq<char>) -> bool {
    p.len() > 0 ==> entry_of(p) is Some
}

impl CommitList {
    /// Whether every non-empty entry of `input` describes a commit, as
    /// [`CommitList::from_str`] needs.
    pub fn is_well_formed(input: &str) -> (r: bool)
        ensures
            r == log_well_formed(input@),
    {
        let h = chars_of(input);
        let d = chars_of("|commit-delimiter|");
        let bd = chars_of("|body-delimiter|");
        proof {
            reveal_strlit("|commit-delimiter|");
        }
        let mut k: usize = 0;
        let ghost mut done: Seq<Seq<char>> = Seq::empty();
        let mut finished = false;
        while !finished
            invariant
                h@ == input@,
                d@ == commit_delimiter(),
                bd@ == body_delimiter(),
                d@.len() > 0,
                k <= h.len(),
                finished ==> log_pieces(input@) == done,
                !finished ==> log_pieces(input@) == done + split_from(h@, d@, k as int),
                forall|i: int| 0 <= i < done.len() ==> entry_ok(#[trigger] done[i]),
            decreases h.len() + 1 - k + (if finished { 0int } else { 1int }),
        {
            let (end, next) = match find_from_exec(&h, &d, k) {
                Some(i) => {
                    proof {
                        lemma_find_from_bounds(h@, d@, k as int);
                    }
                    (i, Some(i + d.len()))
                },
                None => (h.len(), None),
            };
            let piece = slice_chars(&h, k, end);
            proof {
                if next is None {
                    assert(h@.subrange(k as int, h.len() as int) =~= h@.skip(k as int));
                }
            }
            if piece.len() > 0 && !entry_is_commit(&piece, &bd) {
                proof {
                    let pieces = log_pieces(input@);
                    assert(pieces[done.len() as int] == piece@);
                }
                return false;
            }
            proof {
                done = done.push(piece@);
            }
            match next {
                Some(n) => {
                    k = n;
                },
                None => {
                    finished = true;
                },
            }
        }
        true
    }

    /// Reads the commits that `git log` printed in [`format_string`].
    pub fn from_str(input: &str) -> (r: CommitList)
        requires
            log_well_formed(input@),
        ensures
            r@ == log_commits(input@),
    {
        let h = chars_of(input);
        let d = chars_of("|commit-delimiter|");
        let bd = chars_of("|body-delimiter|");
        proof {
            reveal_strlit("|commit-delimiter|");
        }
        let ghost f = |p: Seq<char>| commit_of_piece(p);
        let mut k: usize = 0;
        let ghost mut done: Seq<Seq<char>> = Seq::empty();
        let mut commits: Vec<CommitDetails> = Vec::new();
        let mut finished = false;
        while !finished
            invariant
                h@ == input@,
                d@ == commit_delimiter(),
                bd@ == body_delimiter(),
                d@.len() > 0,
                k <= h.len(),
                log_well_formed(input@),
                f == (|p: Seq<char>| commit_of_piece(p)),
                finished ==> log_pieces(input@) == done,
                !finished ==> log_pieces(input@) == done + split_from(h@, d@, k as int),
                commit_views(commits@) == done.filter_map(f),
            decreases h.len() + 1 - k + (if finished { 0int } else { 1int }),
        {
            let (end, next) = match find_from_exec(&h, &d, k) {
                Some(i) => {
                    proof {
                        lemma_find_from_bounds(h@, d@, k as int);
                    }
                    (i, Some(i + d.len()))
                },
                None => (h.len(), None),
            };
            let piece = slice_chars(&h, k, end);
            proof {
                if next is None {
                    assert(h@.subrange(k as int, h.len() as int) =~= h@.skip(k as int));
                }
                let pieces = log_pieces(input@);
                assert(pieces[done.len() as int] == piece@);
            }
            if piece.len() > 0 {
                match commit_of_entry(&piece, &bd) {
                    Some(c) => {
                        commits.push(c);
                    },
                    None => {
                        proof {
                            assert(false);
                        }
                    },
                }
            }
            proof {
                let nd = done.push(piece@);
                assert(nd.drop_last() =~= done);
                assert(commit_views(commits@) =~= nd.filter_map(f));
                done = nd;
            }
            match next {
                Some(n) => {
                    k = n;
                },
                None => {
                    finished = true;
                },
            }
        }
        CommitList(commits)
    }

    pub fn len(&self) -> (r: usize)
        ensures
            r == self@.len(),
    {
        self.0.len()
    }

    /// The commits, newest first.
    pub fn into_commits(self) -> (r: Vec<CommitDetails>)
        ensures
            commit_views(r@) == self@,
    {
        self.0
    }
}

/// Reads one entry of the log into a commit.
fn commit_of_entry(piece: &Vec<char>, bd: &Vec<char>) -> (r: Option<CommitDetails>)
    requires
        bd@ == body_delimiter(),
    ensures
        match r {
            Some(c) => entry_of(piece@) == Some(c@),
            None => entry_of(piece@) is None,
        },
{
    let (s, e) = trim_bounds(piece);
    let t = slice_chars(piece, s, e);
    let j = match find_from_exec(&t, bd, 0) {
        Some(j) => j,
        None => return None,
    };
    proof {
        lemma_find_from_bounds(t@, bd@, 0);
    }
    let line = string_of_range(&t, 0, j);
    let body = string_of_range(&t, j + bd.len(), t.len());
    proof {
        assert(t@.subrange(0, j as int) =~= t@.take(j as int));
        assert(t@.subrange(j + bd.len(), t.len() as int) =~= t@.skip(j + bd.len()));
    }
    match CommitDetails::parse(line.as_str(), body.as_str()) {
        Ok(c) => Some(c),
        Err(_) => None,
    }
}

/// Whether one entry of the log describes a commit.
fn entry_is_commit(piece: &Vec<char>, bd: &Vec<char>) -> (r: bool)
    requires
        bd@ == body_delimiter(),
    ensures
        r == (entry_of(piece@) is Some),
{
    commit_of_entry(piece, bd).is_some()
}

pub open spec fn string_views(v: Seq<String>) -> Seq<Seq<char>> {
    v.map_values(|s: String| s@)
}

/// `git log` from a release's tag up to `HEAD`, printed for [`CommitList`].
pub struct CommitsFromVersionToHead(pub VersionTag);

impl CommitsFromVersionToHead {
    /// The arguments to `git`: `log`, the format, and `{tag}..HEAD`.
    pub fn args(&self) -> (r: Vec<String>)
        ensures
            string_views(r@) == seq![
                "log"@,
                "--pretty=format:"@ + format_string(),
                self.0.0@ + "..HEAD"@,
            ],
    {
        let mut format = "--pretty=format:".to_owned();
        format.append(
            "%H|field-delimiter|%an|field-delimiter|%ae|field-delimiter|%s|body-delimiter|%b|commit-delimiter|",
        );
        let mut range = self.0.0.clone();
        range.append("..HEAD");
        let r = vec!["log".to_owned(), format, range];
        assert(string_views(r@) =~= seq![
            "log"@,
            "--pretty=format:"@ + format_string(),
            self.0.0@ + "..HEAD"@,
        ]);
        r
    }
}

/// `git checkout` of a branch.
pub struct Checkout(pub String);

impl Checkout {
    /// The checkout of the branch that was checked out before: `-`.
    pub fn previous_branch() -> (r: Checkout)
        ensures
            r.0@ == "-"@,
    {
        Checkout("-".to_owned())
    }

    /// The arguments to `git`: `checkout` and the branch.
    pub fn args(&self) -> (r: Vec<String>)
        ensures
            string_views(r@) == seq!["checkout"@, self.0@],
    {
        let r = vec!["checkout".to_owned(), self.0.clone()];
        assert(string_views(r@) =~= seq!["checkout"@, self.0@]);
        r
    }
}

} // verus!
